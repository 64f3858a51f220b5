use crm_migration::error::MigrationError;
use crm_migration::family_refresh::lifecycle::{plan_cancel, FamilyControl, PlanCancel, PlanRow};
use crm_migration::family_refresh::model::Family;

fn control(revision: &str, families: Vec<Family>) -> FamilyControl {
    FamilyControl { request_id: 1, expected_revision: revision.to_string(), families }
}

fn plan(id: u128, family: Family, state: &str, phase: &str) -> PlanRow {
    PlanRow {
        id,
        family,
        state: state.to_string(),
        phase: phase.to_string(),
        cancel_requested: false,
        revision: 3,
    }
}

#[test]
fn a_control_command_names_a_canonical_revision_and_distinct_families() {
    assert_eq!(control("4", vec![Family::Activity]).request(), Ok(4));
    assert_eq!(control("04", vec![Family::Activity]).request(), Err(MigrationError::InvalidInput));
    assert_eq!(control("0", vec![Family::Activity]).request(), Err(MigrationError::InvalidInput));
    assert_eq!(control("4", vec![]).request(), Err(MigrationError::InvalidInput));
    assert_eq!(
        control("4", vec![Family::History, Family::History]).request(),
        Err(MigrationError::InvalidInput)
    );
}

#[test]
fn cancelling_every_live_family_cancels_the_bundle() {
    let plans = vec![plan(10, Family::Metadata, "preparing", "mappings"), plan(11, Family::History, "completed", "apply")];
    let d = plan_cancel(5, &vec![Family::Metadata], 5, &"preparing".to_string(), 10, &plans).unwrap();
    assert!(!d.survives);
    assert_eq!(d.state, "cancelled");
    assert_eq!(d.next_revision, 6);
    assert_eq!(d.cancels, vec![PlanCancel { plan: 10, family: Family::Metadata, revision: 3, shared: false }]);
}

#[test]
fn a_payer_still_sharing_work_with_a_live_sibling_keeps_running() {
    let plans = vec![plan(10, Family::Metadata, "preparing", "capture"), plan(11, Family::Activity, "preparing", "cohort")];
    let d = plan_cancel(5, &vec![Family::Metadata], 5, &"preparing".to_string(), 10, &plans).unwrap();
    assert!(d.survives);
    assert_eq!(d.state, "preparing");
    assert_eq!(d.cancels, vec![PlanCancel { plan: 10, family: Family::Metadata, revision: 3, shared: true }]);
    let d = plan_cancel(5, &vec![Family::Activity], 5, &"preparing".to_string(), 10, &plans).unwrap();
    assert_eq!(d.cancels, vec![PlanCancel { plan: 11, family: Family::Activity, revision: 3, shared: false }]);
}

#[test]
fn cancellation_refuses_stale_finished_missing_or_repeated_requests() {
    let plans = vec![plan(10, Family::Metadata, "preparing", "mappings")];
    let live = "preparing".to_string();
    assert_eq!(plan_cancel(5, &vec![Family::Metadata], 6, &live, 10, &plans).err(), Some(MigrationError::Conflict));
    assert_eq!(
        plan_cancel(5, &vec![Family::Metadata], 5, &"completed".to_string(), 10, &plans).err(),
        Some(MigrationError::Conflict)
    );
    assert_eq!(plan_cancel(5, &vec![Family::History], 5, &live, 10, &plans).err(), Some(MigrationError::NotFound));
    let mut requested = plans.clone();
    requested[0].cancel_requested = true;
    assert_eq!(plan_cancel(5, &vec![Family::Metadata], 5, &live, 10, &requested).err(), Some(MigrationError::Conflict));
    let ended = vec![plan(10, Family::Metadata, "cancelled", "mappings")];
    assert_eq!(plan_cancel(5, &vec![Family::Metadata], 5, &live, 10, &ended).err(), Some(MigrationError::Conflict));
    assert_eq!(plan_cancel(i64::MAX, &vec![Family::Metadata], i64::MAX, &live, 10, &plans).err(), Some(MigrationError::Conflict));
}
