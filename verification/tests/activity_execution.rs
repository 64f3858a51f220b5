use crm_migration::error::MigrationError;
use crm_migration::family_refresh::activity_delta::{Content, Doc, Instant, Members, Proposal, Scope, Source, Value};
use crm_migration::family_refresh::activity_execution::{
    execution_proposal, frozen_check, recheck_members, MemberChoice, MemberRow,
};
use crm_migration::family_refresh::execution::{after_revision, execution_bound, is_next_in_order, ResultUnit};
use crm_migration::family_refresh::model::{Baseline, Hold};

fn choice(id: u128, label: &str, status: &str) -> MemberChoice {
    MemberChoice { id, label: label.to_string(), status: status.to_string() }
}

fn row(status: &str, name: &str) -> Option<MemberRow> {
    Some(MemberRow { status: status.to_string(), display_name: name.to_string() })
}

#[test]
fn member_destinations_must_be_unchanged() {
    let chosen = vec![choice(1, "Ann", "active"), choice(2, "Bob", "inactive")];
    let m = recheck_members(&chosen, &vec![row("active", "Ann"), row("inactive", "Bob")]).ok().unwrap();
    assert!(m.all.contains(&1) && m.all.contains(&2));
    assert!(m.active.contains(&1) && !m.active.contains(&2));
    assert_eq!(recheck_members(&chosen, &vec![row("active", "Ann"), None]).err(), Some(Hold::TargetUnavailable));
    assert_eq!(
        recheck_members(&chosen, &vec![row("active", "Ann B."), row("inactive", "Bob")]).err(),
        Some(Hold::TargetUnavailable)
    );
    assert_eq!(
        recheck_members(&chosen, &vec![row("active", "Ann"), row("active", "Bob")]).err(),
        Some(Hold::TargetUnavailable)
    );
}

#[test]
fn units_apply_in_order_within_their_budget() {
    assert!(is_next_in_order("running", "apply", 4, 5, 9, 9));
    assert!(!is_next_in_order("running", "apply", 4, 6, 9, 9));
    assert!(!is_next_in_order("paused", "apply", 4, 5, 9, 9));
    assert!(!is_next_in_order("running", "classify", 4, 5, 9, 9));
    assert!(!is_next_in_order("running", "apply", 4, 5, 9, 8));
    assert!(!is_next_in_order("running", "apply", i64::MAX, i64::MIN, 9, 9));
    assert_eq!(execution_bound(100), Ok(16584));
    assert_eq!(execution_bound(32 * 1024 * 1024), Err(MigrationError::StorageLimit));
    assert_eq!(execution_bound(i64::MAX), Err(MigrationError::StorageLimit));
}

#[test]
fn settled_units_record_their_disposition() {
    let held = ResultUnit::settled("held", Some(1), None).unwrap();
    assert_eq!((held.disposition, held.counts.held, held.counts.excluded), ("held", 1, 0));
    let excluded = ResultUnit::settled("excluded", None, Some(2)).unwrap();
    assert_eq!((excluded.disposition, excluded.counts.held, excluded.counts.excluded), ("excluded", 0, 1));
    assert!(ResultUnit::settled("insert", None, None).is_none());
}

#[test]
fn the_written_row_must_carry_the_expected_revision() {
    assert_eq!(after_revision(false, 0, true, Some(1)), Ok(1));
    assert_eq!(after_revision(true, 4, true, Some(5)), Ok(5));
    assert_eq!(after_revision(true, 4, false, Some(4)), Ok(4));
    assert_eq!(after_revision(true, 4, true, Some(4)), Err(MigrationError::Crypto));
    assert_eq!(after_revision(true, 4, true, None), Err(MigrationError::Crypto));
    assert_eq!(after_revision(true, i64::MAX, true, Some(i64::MAX)), Err(MigrationError::Crypto));
}

fn source() -> Source {
    let at = Instant { seconds: 1_788_220_800, nanos: 0 };
    Source { created: at, updated: at, content: Content::Note { body: "Note".into(), author: None }, content_valid: true }
}

fn scope() -> Scope {
    Scope { organization: 1, source_external_id: "v1:17:1".into(), correlation: 2 }
}

fn members() -> Members {
    Members { all: vec![], active: vec![] }
}

#[test]
fn a_new_record_is_inserted_only_without_any_trace() {
    let fresh = execution_proposal(&scope(), 7, 50, None, None, None, None, false, &source(), &members()).ok().unwrap();
    assert_eq!(fresh.target, 50);
    assert_eq!(fresh.counts.inserts, 1);
    let traced = execution_proposal(&scope(), 7, 50, None, Some(50), None, None, false, &source(), &members());
    assert!(traced.is_err());
    let collided = execution_proposal(&scope(), 7, 50, None, None, None, None, true, &source(), &members());
    assert!(collided.is_err());
}

#[test]
fn an_update_needs_the_identity_to_point_at_the_approved_target() {
    let baseline = Baseline {
        result_id: 3,
        person_id: 7,
        target_id: 50,
        revision: 1,
        native: Doc::Object(vec![(b"body".to_vec(), Value::Text(b"Note".to_vec()))]),
        owned: true,
        head_id: None,
    };
    let moved = execution_proposal(&scope(), 7, 50, Some(&baseline), Some(51), None, None, false, &source(), &members());
    assert_eq!(moved.err(), Some(Hold::IdentityMismatch));
}

#[test]
fn only_the_exact_approved_proposal_executes() {
    let approved = execution_proposal(&scope(), 7, 50, None, None, None, None, false, &source(), &members()).ok().unwrap();
    let mut frozen = approved.clone();
    frozen.counts.source_only = 3;
    let again = execution_proposal(&scope(), 7, 50, None, None, None, None, false, &source(), &members()).ok().unwrap();
    assert_eq!(frozen_check(again.clone(), &vec![1, 2], &frozen), Ok(Ok(())));
    assert_eq!(frozen_check(again.clone(), &vec![1], &frozen), Ok(Err(Hold::LocalChange)));
    let mut edited: Proposal = again.clone();
    edited.after = Doc::Object(vec![(b"body".to_vec(), Value::Text(b"Edited".to_vec()))]);
    assert_eq!(frozen_check(edited, &vec![1, 2], &frozen), Ok(Err(Hold::LocalChange)));
    assert_eq!(frozen_check(again, &vec![u64::MAX, 1], &frozen), Err(MigrationError::Crypto));
}
