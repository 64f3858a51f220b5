use crm_migration::error::MigrationError;
use crm_migration::family_refresh::confirmation::{
    admit_plans, check_bundle, check_request, confirmed_revision, plan_action, revision, valid_digest, BundleRow,
    PlanAction, PlanRow, SelectedPlan,
};
use crm_migration::family_refresh::model::{Counts, Family};

const DIGEST: &str = "00ff00ff00ff00ff00ff00ff00ff00ff00ff00ff00ff00ff00ff00ff00ff00ff";

fn counts(held: u64) -> Counts {
    Counts { units: 2, updates: 2 - held, held, ..Counts::default() }
}

fn selected(family: Family, plan_id: u128, held: u64) -> SelectedPlan {
    SelectedPlan {
        family,
        plan_id,
        plan_revision: "3".into(),
        plan_digest: DIGEST.into(),
        expected_counts: counts(held),
    }
}

fn row(family: &str, id: u128, held: u64) -> PlanRow {
    PlanRow {
        id,
        family: family.into(),
        revision: 3,
        state: "ready".into(),
        unexpired: Some(true),
        lease_live: Some(false),
        digest: Some([0u8, 255].repeat(16)),
        counts: counts(held),
    }
}

#[test]
fn confirmation_requests_are_checked_before_any_transaction() {
    let one = vec![selected(Family::Metadata, 1, 0)];
    assert_eq!(check_request("5", DIGEST, &one), Ok(5));
    assert_eq!(check_request("05", DIGEST, &one), Err(MigrationError::InvalidInput));
    assert_eq!(check_request("5", "00", &one), Err(MigrationError::InvalidInput));
    assert_eq!(check_request("5", DIGEST, &vec![]), Err(MigrationError::InvalidInput));
    let twice = vec![selected(Family::Metadata, 1, 0), selected(Family::Metadata, 2, 0)];
    assert_eq!(check_request("5", DIGEST, &twice), Err(MigrationError::InvalidInput));
    let mut bad = selected(Family::Activity, 1, 0);
    bad.plan_revision = "0".into();
    assert_eq!(check_request("5", DIGEST, &vec![bad]), Err(MigrationError::InvalidInput));
    let mut unreconciled = selected(Family::Activity, 1, 0);
    unreconciled.expected_counts.units = 7;
    assert_eq!(check_request("5", DIGEST, &vec![unreconciled]), Err(MigrationError::InvalidInput));
    assert_eq!(revision("12"), Ok(12));
    assert!(valid_digest(DIGEST));
}

#[test]
fn only_the_executor_confirms_a_waiting_bundle_with_the_sealed_digest() {
    let combined = [0u8, 255].repeat(16);
    let bundle = BundleRow {
        executor_user_id: 8,
        revision: 5,
        confirmed: false,
        state: "ready".into(),
        digest: Some(combined.clone()),
    };
    assert_eq!(check_bundle(Some(8), &bundle, 5, &combined, DIGEST), Ok(()));
    assert_eq!(check_bundle(Some(9), &bundle, 5, &combined, DIGEST), Err(MigrationError::Conflict));
    assert_eq!(check_bundle(Some(8), &bundle, 4, &combined, DIGEST), Err(MigrationError::Conflict));
    assert_eq!(check_bundle(Some(8), &bundle, 5, &vec![1, 2], DIGEST), Err(MigrationError::Conflict));
    let other = "11ff00ff00ff00ff00ff00ff00ff00ff00ff00ff00ff00ff00ff00ff00ff00ff";
    assert_eq!(check_bundle(Some(8), &bundle, 5, &combined, other), Err(MigrationError::Conflict));
    let queued = BundleRow { state: "queued".into(), ..bundle };
    assert_eq!(check_bundle(Some(8), &queued, 5, &combined, DIGEST), Err(MigrationError::Conflict));
}

#[test]
fn selected_plans_must_be_exactly_what_the_operator_saw() {
    let families = vec![selected(Family::Metadata, 1, 0)];
    let plans = vec![row("metadata", 1, 0)];
    assert_eq!(admit_plans(&plans, &vec![true], &families, false), Ok(()));
    assert_eq!(admit_plans(&plans, &vec![false], &families, false), Err(MigrationError::SourceNotEligible));
    let moved = vec![row("metadata", 2, 0)];
    assert_eq!(admit_plans(&moved, &vec![true], &families, false), Err(MigrationError::Conflict));
    let mut leased = row("metadata", 1, 0);
    leased.lease_live = Some(true);
    assert_eq!(admit_plans(&vec![leased], &vec![true], &families, false), Err(MigrationError::ImportBusy));
    let missing = vec![row("activity", 4, 0)];
    assert_eq!(admit_plans(&missing, &vec![true], &families, true), Err(MigrationError::Conflict));
}

#[test]
fn leaving_plans_out_or_confirming_holds_needs_acknowledgement() {
    let families = vec![selected(Family::Metadata, 1, 0)];
    let plans = vec![row("activity", 4, 0), row("metadata", 1, 0)];
    assert_eq!(admit_plans(&plans, &vec![true, true], &families, false), Err(MigrationError::InvalidInput));
    assert_eq!(admit_plans(&plans, &vec![true, true], &families, true), Ok(()));
    let holding = vec![selected(Family::Metadata, 1, 1)];
    let held = vec![row("metadata", 1, 1)];
    assert_eq!(admit_plans(&held, &vec![true], &holding, false), Err(MigrationError::InvalidInput));
    assert_eq!(admit_plans(&held, &vec![true], &holding, true), Ok(()));
}

#[test]
fn confirmation_queues_the_selection_and_cancels_the_rest() {
    let families = vec![selected(Family::Metadata, 1, 0)];
    assert_eq!(plan_action(1, &"ready".to_string(), &families), PlanAction::Queue);
    assert_eq!(plan_action(2, &"ready".to_string(), &families), PlanAction::Cancel);
    assert_eq!(plan_action(2, &"cancelled".to_string(), &families), PlanAction::Keep);
    assert_eq!(confirmed_revision(5), Ok(6));
    assert_eq!(confirmed_revision(i64::MAX), Err(MigrationError::Conflict));
}
