//! Bookkeeping of one prepared unit: its disposition, its counts, the plan's
//! running totals and position, and the storage bound of its sealed evidence.
//! Also the choice between updating a proven baseline and inserting anew.
use super::activity_delta::{
    name, propose_insert, propose_update, result_view, spec_insert, spec_update, Doc, DocView,
    Members, Proposal, ProposalView, Scope, Source, Value, ValueView,
};
use super::activity_baseline::{read_i64, value_i64};
use super::metadata_delta::{
    propose, spec_propose, Catalog, Ownership, Snapshot, Source as MetadataSource,
};
use super::model::{spec_checked_add, spec_reconciles, zero_counts, Baseline, Counts, Current, Hold, Kind};
use crate::error::MigrationError;
use vstd::prelude::*;

verus! {

/// What a prepared unit will do.
#[derive(Debug, Clone, Copy, PartialEq, Eq, Structural)]
pub enum Disposition {
    Insert,
    Update,
    AlreadyCurrent,
    Held,
}

pub open spec fn disposition_name(d: Disposition) -> Seq<char> {
    match d {
        Disposition::Insert => "insert"@,
        Disposition::Update => "update"@,
        Disposition::AlreadyCurrent => "already_current"@,
        Disposition::Held => "held"@,
    }
}

impl Disposition {
    pub fn as_str(self) -> (name: &'static str)
        ensures
            name@ == disposition_name(self),
    {
        match self {
            Disposition::Insert => "insert",
            Disposition::Update => "update",
            Disposition::AlreadyCurrent => "already_current",
            Disposition::Held => "held",
        }
    }
}

/// The counts of one held unit.
pub open spec fn held_counts() -> Counts {
    Counts { units: 1, held: 1, ..zero_counts() }
}

pub fn held_unit_counts() -> (c: Counts)
    ensures
        c == held_counts(),
{
    Counts {
        units: 1,
        inserts: 0,
        updates: 0,
        already_current: 0,
        held: 1,
        excluded: 0,
        tag_removals: 0,
        field_clears: 0,
        task_completions: 0,
        task_reopens: 0,
        history_corrections: 0,
        source_only: 0,
    }
}

/// The disposition a ready proposal's counts show; inserts only where the
/// family may insert.
pub open spec fn disposition_result(counts: Counts, inserts_allowed: bool) -> Result<
    Disposition,
    MigrationError,
> {
    if inserts_allowed && counts.inserts == 1 {
        Ok(Disposition::Insert)
    } else if counts.updates == 1 {
        Ok(Disposition::Update)
    } else if counts.already_current == 1 {
        Ok(Disposition::AlreadyCurrent)
    } else {
        Err(MigrationError::Crypto)
    }
}

pub fn disposition_of(counts: &Counts, inserts_allowed: bool) -> (r: Result<Disposition, MigrationError>)
    ensures
        r == disposition_result(*counts, inserts_allowed),
{
    if inserts_allowed && counts.inserts == 1 {
        Ok(Disposition::Insert)
    } else if counts.updates == 1 {
        Ok(Disposition::Update)
    } else if counts.already_current == 1 {
        Ok(Disposition::AlreadyCurrent)
    } else {
        Err(MigrationError::Crypto)
    }
}

pub open spec fn total(values: Seq<u64>) -> int
    decreases values.len(),
{
    if values.len() == 0 {
        0
    } else {
        total(values.drop_last()) + values.last()
    }
}

proof fn lemma_total_grows(values: Seq<u64>, i: int)
    requires
        0 <= i <= values.len(),
    ensures
        total(values.take(i)) <= total(values),
    decreases values.len() - i,
{
    if i < values.len() {
        lemma_total_grows(values, i + 1);
        assert(values.take(i + 1).drop_last() =~= values.take(i));
    } else {
        assert(values.take(i) =~= values);
    }
}

/// The number of source-only values of a unit, if it fits 64 bits.
pub fn source_only_total(values: &Vec<u64>) -> (r: Result<u64, MigrationError>)
    ensures
        total(values@) <= u64::MAX ==> r == Ok::<u64, MigrationError>(total(values@) as u64),
        total(values@) > u64::MAX ==> r == Err::<u64, MigrationError>(MigrationError::StorageLimit),
{
    let mut sum: u64 = 0;
    let mut i: usize = 0;
    assert(values@.take(0) =~= Seq::<u64>::empty());
    while i < values.len()
        invariant
            i <= values@.len(),
            sum == total(values@.take(i as int)),
        decreases values.len() - i,
    {
        assert(values@.take(i as int + 1).drop_last() =~= values@.take(i as int));
        sum = match sum.checked_add(values[i]) {
            Some(s) => s,
            None => {
                proof {
                    lemma_total_grows(values@, i as int + 1);
                }
                return Err(MigrationError::StorageLimit);
            },
        };
        i = i + 1;
    }
    assert(values@.take(i as int) =~= values@);
    Ok(sum)
}

/// Storage reserved for one sealed unit: its ciphertext and a fixed margin.
pub open spec fn bound_result(ciphertext_len: int) -> Result<i64, MigrationError> {
    if ciphertext_len + 16384 <= i64::MAX {
        Ok((ciphertext_len + 16384) as i64)
    } else {
        Err(MigrationError::StorageLimit)
    }
}

pub fn byte_bound(ciphertext_len: usize) -> (r: Result<i64, MigrationError>)
    ensures
        r == bound_result(ciphertext_len as int),
{
    if ciphertext_len as u64 > (i64::MAX - 16384) as u64 {
        return Err(MigrationError::StorageLimit);
    }
    Ok(ciphertext_len as i64 + 16384)
}

/// The plan's totals and position after one more unit: the totals must still
/// reconcile, and neither may overflow.
pub open spec fn advance_result(totals: Counts, counts: Counts, position: i64) -> Result<
    (Counts, i64),
    MigrationError,
> {
    match spec_checked_add(totals, counts) {
        Some(t) => if spec_reconciles(t) && position < i64::MAX {
            Ok((t, (position + 1) as i64))
        } else {
            Err(MigrationError::Crypto)
        },
        None => Err(MigrationError::Crypto),
    }
}

pub fn advance(totals: &Counts, counts: &Counts, position: i64) -> (r: Result<(Counts, i64), MigrationError>)
    ensures
        r == advance_result(*totals, *counts, position),
        r matches Ok((t, _)) ==> spec_reconciles(t),
{
    let sum = match totals.checked_add(counts) {
        Some(t) => t,
        None => return Err(MigrationError::Crypto),
    };
    if !sum.reconciles() || position == i64::MAX {
        return Err(MigrationError::Crypto);
    }
    Ok((sum, position + 1))
}

// ---------------------------------------------------------------------------
// Activity: update a proven baseline, or insert.

/// The named value of an object document, if present.
pub open spec fn doc_field(row: DocView, key: Seq<u8>) -> Option<ValueView> {
    match row {
        DocView::Object(m) => if m.contains_key(key) {
            Some(m[key])
        } else {
            None
        },
        DocView::Scalar(_) => None,
    }
}

/// The native row as the comparison sees it: its revision (zero unless an
/// integer), whether it is soft-deleted, and the identity head.
pub open spec fn current_from(person: u128, target: u128, row: Doc, heads: Seq<u128>) -> Current<Doc> {
    Current {
        person_id: person,
        target_id: target,
        revision: match doc_field(row@, name("revision")) {
            Some(v) => match value_i64(v) {
                Some(r) => r,
                None => 0,
            },
            None => 0,
        },
        native: row,
        deleted: match doc_field(row@, name("deleted_at")) {
            Some(v) => !(v is Null),
            None => false,
        },
        head_id: if heads.len() > 0 {
            Some(heads[0])
        } else {
            None
        },
    }
}

pub(crate) fn current_of(person: u128, target: u128, row: Doc, heads: &Vec<u128>) -> (c: Current<Doc>)
    requires
        row.wf(),
    ensures
        c == current_from(person, target, row, heads@),
{
    let (revision, deleted) = match &row {
        Doc::Object(fields) => {
            let revision = if super::activity_delta::present(fields, "revision") {
                match read_i64(&super::activity_delta::get(fields, "revision")) {
                    Some(r) => r,
                    None => 0,
                }
            } else {
                0
            };
            let deleted = if super::activity_delta::present(fields, "deleted_at") {
                match super::activity_delta::get(fields, "deleted_at") {
                    Value::Null => false,
                    _ => true,
                }
            } else {
                false
            };
            (revision, deleted)
        },
        Doc::Scalar(_) => (0, false),
    };
    let head_id = if heads.len() > 0 {
        Some(heads[0])
    } else {
        None
    };
    Current { person_id: person, target_id: target, revision, native: row, deleted, head_id }
}

/// The proposal for an activity record: an update of the proven baseline
/// against the native row now (none if it is gone), or, with no baseline and no
/// identity head, an insert under `fresh`. More than one head, or a head
/// without a baseline, holds the record.
pub open spec fn activity_proposal_result(
    scope: Scope,
    person: u128,
    fresh: u128,
    source: Source,
    members: Members,
    baseline: Option<Baseline<Doc>>,
    row: Option<Doc>,
    heads: Seq<u128>,
) -> Result<ProposalView, Hold> {
    match baseline {
        Some(b) => if heads.len() > 1 {
            Err(Hold::IdentityMismatch)
        } else {
            spec_update(
                scope,
                Some(b),
                match row {
                    Some(r) => Some(current_from(person, b.target_id, r, heads)),
                    None => None,
                },
                source,
                members,
                true,
            )
        },
        None => if heads.len() > 0 {
            Err(Hold::BaselineUnproven)
        } else {
            spec_insert(scope, person, fresh, source, members, false, true)
        },
    }
}

pub fn activity_proposal(
    scope: &Scope,
    person: u128,
    fresh: u128,
    source: &Source,
    members: &Members,
    baseline: Option<&Baseline<Doc>>,
    row: Option<Doc>,
    heads: &Vec<u128>,
) -> (r: Result<Proposal, Hold>)
    requires
        baseline matches Some(b) ==> b.native.wf(),
        row matches Some(d) ==> d.wf(),
    ensures
        result_view(r) == activity_proposal_result(
            *scope,
            person,
            fresh,
            *source,
            *members,
            super::model::deref_opt(baseline),
            row,
            heads@,
        ),
{
    match baseline {
        Some(b) => {
            let ghost row0 = row;
            let current = match row {
                Some(d) => Some(current_of(person, b.target_id, d, heads)),
                None => None,
            };
            if heads.len() > 1 {
                return Err(Hold::IdentityMismatch);
            }
            let r = propose_update(scope, Some(b), current.as_ref(), source, members, true);
            proof {
                let want = match row0 {
                    Some(d) => Some(current_from(person, b.target_id, d, heads@)),
                    None => None,
                };
                assert(current == want);
            }
            r
        },
        None => {
            if heads.len() > 0 {
                return Err(Hold::BaselineUnproven);
            }
            propose_insert(scope, person, fresh, source, members, false, true)
        },
    }
}

// ---------------------------------------------------------------------------
// Person metadata: propose against the native state now.

/// The native metadata now, stamped with the identity head (the first listed).
pub open spec fn headed(current: Snapshot, heads: Seq<u128>) -> Snapshot {
    Snapshot {
        head: if heads.len() > 0 {
            Some(heads[0])
        } else {
            None
        },
        ..current
    }
}

/// A person's proposal against its proven baseline; more than one identity
/// head holds it.
pub open spec fn metadata_proposal_result(
    baseline: Snapshot,
    current: Snapshot,
    heads: Seq<u128>,
    ownership: Ownership,
    source: MetadataSource,
    catalog: Catalog,
) -> Result<super::metadata_delta::ProposalView, Hold> {
    if heads.len() > 1 {
        Err(Hold::IdentityMismatch)
    } else {
        spec_propose(Some(baseline), Some(headed(current, heads)), ownership, source, catalog, true)
    }
}

pub fn metadata_proposal(
    baseline: &Snapshot,
    current: Snapshot,
    heads: &Vec<u128>,
    ownership: &Ownership,
    source: &MetadataSource,
    catalog: &Catalog,
) -> (r: Result<super::metadata_delta::Proposal, Hold>)
    requires
        baseline.state.wf(),
        current.state.wf(),
        ownership.wf(),
        catalog.wf(),
    ensures
        super::metadata_delta::result_view(r) == metadata_proposal_result(
            *baseline,
            current,
            heads@,
            *ownership,
            *source,
            *catalog,
        ),
{
    let mut current = current;
    current.head = if heads.len() > 0 {
        Some(heads[0])
    } else {
        None
    };
    if heads.len() > 1 {
        return Err(Hold::IdentityMismatch);
    }
    propose(Some(baseline), Some(&current), ownership, source, catalog, true)
}

// ---------------------------------------------------------------------------
// Entry checks of a note or task unit.

/// The manifest kind of an activity unit: only notes and tasks have one.
pub open spec fn activity_kind_name(kind: Kind) -> Option<Seq<char>> {
    match kind {
        Kind::Note => Some("note"@),
        Kind::Task => Some("task"@),
        _ => None,
    }
}

pub fn activity_kind(kind: Kind) -> (r: Result<&'static str, MigrationError>)
    ensures
        match r {
            Ok(name) => activity_kind_name(kind) == Some(name@),
            Err(e) => activity_kind_name(kind) is None && e == MigrationError::InvalidInput,
        },
{
    match kind {
        Kind::Note => Ok("note"),
        Kind::Task => Ok("task"),
        _ => Err(MigrationError::InvalidInput),
    }
}

/// The checks of a note or task unit under the plan lock: the resolved record
/// must name its source person; the plan must be an activity plan whose
/// mappings are complete; and the unit's cohort member must be that source
/// person, else the unit is held as an identity mismatch.
pub open spec fn activity_entry_result(
    plan_family: Seq<char>,
    mappings_complete: bool,
    cohort_source_person: Seq<char>,
    record_source_person: Option<Seq<char>>,
) -> Result<Option<Hold>, MigrationError> {
    match record_source_person {
        None => Err(MigrationError::Crypto),
        Some(sp) => if plan_family != "activity"@ || !mappings_complete {
            Err(MigrationError::ImportBusy)
        } else if cohort_source_person != sp {
            Ok(Some(Hold::IdentityMismatch))
        } else {
            Ok(None)
        },
    }
}

pub fn activity_entry(
    plan_family: &str,
    mappings_complete: bool,
    cohort_source_person: &str,
    record_source_person: Option<&str>,
) -> (r: Result<Option<Hold>, MigrationError>)
    ensures
        r == activity_entry_result(
            plan_family@,
            mappings_complete,
            cohort_source_person@,
            match record_source_person {
                Some(s) => Some(s@),
                None => None,
            },
        ),
{
    let sp = match record_source_person {
        None => return Err(MigrationError::Crypto),
        Some(s) => s,
    };
    if plan_family.to_owned() != "activity".to_owned() || !mappings_complete {
        return Err(MigrationError::ImportBusy);
    }
    if cohort_source_person.to_owned() != sp.to_owned() {
        Ok(Some(Hold::IdentityMismatch))
    } else {
        Ok(None)
    }
}

/// A unit already in the manifest must be the one for this cohort member and
/// this resolved source row.
pub fn check_existing_unit(row_cohort: Option<u128>, row_source: Option<u128>, cohort: u128, source_row: u128) -> (r:
    Result<(), MigrationError>)
    ensures
        r is Ok <==> (row_cohort == Some(cohort) && row_source == Some(source_row)),
        r matches Err(e) ==> e == MigrationError::Crypto,
{
    if row_cohort == Some(cohort) && row_source == Some(source_row) {
        Ok(())
    } else {
        Err(MigrationError::Crypto)
    }
}

/// A first-seen identity must be proposed for the cohort member's person
/// and the resolved source row.
pub fn check_new_identity(candidate_person: u128, candidate_source: u128, person: u128, source_row: u128) -> (r:
    Result<(), MigrationError>)
    ensures
        r is Ok <==> (candidate_person == person && candidate_source == source_row),
        r matches Err(e) ==> e == MigrationError::Crypto,
{
    if candidate_person == person && candidate_source == source_row {
        Ok(())
    } else {
        Err(MigrationError::Crypto)
    }
}

} // verus!
