use crm_migration::error::MigrationError;
use crm_migration::family_refresh::activity_delta::Instant;
use crm_migration::family_refresh::commands::{
    capture_eligible, control_amount, core_report_eligible, new_plans, plans_with, report_belongs,
    CaptureFacts, CoreReportFacts, PrepareFamilyRefresh, PreparedPlan,
};
use crm_migration::family_refresh::model::Family;

fn at(seconds: i64) -> Instant {
    Instant { seconds, nanos: 0 }
}

fn request(families: Vec<Family>, core: bool, history: bool) -> PrepareFamilyRefresh {
    PrepareFamilyRefresh {
        request_id: 1,
        parent_import_id: 2,
        core_report_id: if core { Some(3) } else { None },
        history_capture_id: if history { Some(4) } else { None },
        families,
    }
}

#[test]
fn families_come_in_canonical_order_with_a_core_payer_first() {
    let ordered = request(vec![Family::History, Family::Activity], true, true).families().unwrap();
    assert_eq!(ordered, vec![Family::Activity, Family::History]);
    let plans = plans_with(&ordered, &vec![10, 11]);
    assert_eq!(
        plans,
        vec![
            PreparedPlan { family: Family::Activity, plan_id: 10, revision: 1 },
            PreparedPlan { family: Family::History, plan_id: 11, revision: 1 },
        ]
    );
    let fresh = new_plans(&ordered);
    assert_eq!(fresh.len(), 2);
    assert_eq!((fresh[0].family, fresh[0].revision), (Family::Activity, 1));
    assert_eq!(request(vec![Family::History], true, true).families(), Err(MigrationError::InvalidInput));
}

fn report() -> CoreReportFacts {
    CoreReportFacts {
        parent_import_id: 2,
        parent_plan_id: 5,
        source_account_id: 17,
        consistent_identity: true,
        newer_completed: at(1000),
    }
}

#[test]
fn a_core_report_must_belong_to_the_parent_and_be_finished() {
    assert!(report_belongs(2, 5, 17, 2, 5, 17));
    assert!(!report_belongs(2, 5, 17, 2, 6, 17));
    assert_eq!(core_report_eligible(2, 5, 17, at(2000), &report()), Ok(at(1000)));
    assert_eq!(core_report_eligible(2, 5, 17, at(1000), &report()), Ok(at(1000)));
    assert_eq!(core_report_eligible(2, 5, 17, at(999), &report()), Err(MigrationError::SourceNotEligible));
    assert_eq!(core_report_eligible(2, 5, 18, at(2000), &report()), Err(MigrationError::SourceNotEligible));
    let mut split = report();
    split.consistent_identity = false;
    assert_eq!(core_report_eligible(2, 5, 17, at(2000), &split), Err(MigrationError::SourceNotEligible));
}

fn capture() -> CaptureFacts {
    CaptureFacts {
        current_profile: true,
        state: "completed_with_gaps".to_string(),
        parent_import_id: 2,
        parent_plan_id: 5,
        source_account_id: 17,
        parent_source_user_id: Some(40),
        source_user_id: 40,
        started: Some(at(1500)),
        completed: Some(at(1800)),
    }
}

#[test]
fn a_history_capture_must_follow_the_core_capture_and_match_its_parent() {
    assert_eq!(capture_eligible(2, 5, 17, at(2000), Some(at(1000)), &capture()), Ok((at(1500), at(1800))));
    assert!(capture_eligible(2, 5, 17, at(2000), None, &capture()).is_ok());
    assert!(capture_eligible(2, 5, 17, at(2000), Some(at(1500)), &capture()).is_err());
    assert!(capture_eligible(2, 5, 17, at(1700), None, &capture()).is_err());
    let mut other_user = capture();
    other_user.parent_source_user_id = Some(41);
    assert!(capture_eligible(2, 5, 17, at(2000), None, &other_user).is_err());
    let mut running = capture();
    running.state = "running".to_string();
    assert!(capture_eligible(2, 5, 17, at(2000), None, &running).is_err());
    let mut unfinished = capture();
    unfinished.completed = None;
    assert_eq!(capture_eligible(2, 5, 17, at(2000), None, &unfinished), Err(MigrationError::SourceNotEligible));
    let mut backwards = capture();
    backwards.completed = Some(at(1400));
    assert!(capture_eligible(2, 5, 17, at(2000), None, &backwards).is_err());
}

#[test]
fn control_reservations_never_overflow() {
    assert_eq!(control_amount(100), Ok(8292));
    assert_eq!(control_amount(i64::MAX), Err(MigrationError::StorageLimit));
}
