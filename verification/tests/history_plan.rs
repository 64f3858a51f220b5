use crm_migration::error::MigrationError;
use crm_migration::family_refresh::history_plan::{
    after_discovery, after_new_identity, check_frozen_meanwhile, check_replay, history_kind, history_phase_open,
    person_hold, plan_history, unit_step, FrozenUnit, UnitAction, UnitEvent, UnitStage, plan_history_with, BaselineStep, HistoryBaseline, HistoryDisposition,
};
use crm_migration::family_refresh::model::{HistoryChange, Hold, Kind};

fn baseline(semantic: &[u8], person: u128) -> HistoryBaseline {
    HistoryBaseline {
        identity: 10,
        person,
        original_fact: 11,
        capture: 12,
        semantic: semantic.to_vec(),
        created: None,
        version: 3,
        version_id: None,
        result: Some(13),
    }
}

#[test]
fn a_record_never_imported_gets_a_new_identity_and_fact() {
    let p = plan_history_with(&None, b"s", 7, 100, 101, 102).unwrap();
    assert_eq!(p.disposition, HistoryDisposition::Insert);
    assert_eq!(p.change, HistoryChange::New);
    assert_eq!((p.identity, p.target, p.expected_head, p.expected_version, p.version_id), (100, 101, None, None, None));
    assert_eq!((p.counts.units, p.counts.inserts), (1, 1));
    assert_eq!(p.disposition.as_str(), "insert");
    assert!(plan_history(&None, b"s", 7).is_ok());
}

#[test]
fn an_imported_record_keeps_its_identity() {
    let same = plan_history_with(&Some(baseline(b"s", 7)), b"s", 7, 100, 101, 102).unwrap();
    assert_eq!(same.disposition, HistoryDisposition::AlreadyCurrent);
    assert_eq!((same.identity, same.target, same.expected_head, same.expected_version), (10, 11, Some(13), Some(3)));
    assert_eq!(same.version_id, None);
    assert_eq!(same.counts.already_current, 1);
    let corrected = plan_history_with(&Some(baseline(b"s", 7)), b"t", 7, 100, 101, 102).unwrap();
    assert_eq!(corrected.disposition, HistoryDisposition::Correction);
    assert_eq!(corrected.version_id, Some(102));
    assert_eq!(corrected.counts.history_corrections, 1);
    assert_eq!(corrected.disposition.as_str(), "correction");
}

#[test]
fn a_record_moved_to_another_person_is_held() {
    assert_eq!(
        plan_history_with(&Some(baseline(b"s", 7)), b"t", 8, 100, 101, 102).err(),
        Some(Hold::IdentityMismatch)
    );
}

#[test]
fn history_units_are_checked_before_they_are_frozen() {
    assert_eq!(history_kind(Kind::Call), Ok("call"));
    assert_eq!(history_kind(Kind::Note), Err(MigrationError::InvalidInput));
    assert_eq!(history_phase_open("history", "classify"), Ok(()));
    assert_eq!(history_phase_open("metadata", "classify"), Err(MigrationError::Conflict));
    assert_eq!(history_phase_open("history", "apply"), Err(MigrationError::Conflict));
    assert_eq!(check_replay(Some(1), Some(2), "101", 1, 2, "101"), Ok(()));
    assert_eq!(check_replay(Some(1), Some(2), "102", 1, 2, "101"), Err(MigrationError::Conflict));
    assert_eq!(check_frozen_meanwhile(Some(1), Some(3), 1, 2), Err(MigrationError::Conflict));
    assert_eq!(person_hold("101", "102"), Some(Hold::IdentityMismatch));
    assert_eq!(person_hold("101", "101"), None);
    assert!(matches!(after_discovery(Err(Hold::BaselineUnproven)), BaselineStep::TryNewIdentity));
    assert!(matches!(after_discovery(Err(Hold::LocalChange)), BaselineStep::Held(Hold::LocalChange)));
    assert!(matches!(after_new_identity(Ok(())), Ok(None)));
    assert!(matches!(after_new_identity(Err(Hold::TargetErased)), Err(Hold::TargetErased)));
}

#[test]
fn a_history_unit_is_prepared_in_order_and_freezes_only_when_every_check_passes() {
    let (s, a) = unit_step(UnitStage::Resolving, UnitEvent::Resolved(None), 1, 2, "101");
    assert!(matches!((&s, &a), (UnitStage::Replaying, UnitAction::ReadReplay)));
    let read = UnitEvent::ReplayRead { family: "history".into(), phase: "classify".into(), frozen: None };
    let (s, a) = unit_step(s, read, 1, 2, "101");
    assert!(matches!((&s, &a), (UnitStage::Discovering, UnitAction::Discover)));
    let (s, a) = unit_step(s, UnitEvent::Discovered(Err(Hold::BaselineUnproven)), 1, 2, "101");
    assert!(matches!((&s, &a), (UnitStage::ProvingNew, UnitAction::ProveNew)));
    let (s, a) = unit_step(s, UnitEvent::NewIdentity(Ok(())), 1, 2, "101");
    assert!(matches!((&s, &a), (UnitStage::Locking(None), UnitAction::Lock)));
    let locked = |person: &str, frozen: Option<FrozenUnit>| UnitEvent::Locked {
        family: "history".into(),
        phase: "mappings".into(),
        cohort_source_person: person.into(),
        frozen,
    };
    let (_, a) = unit_step(UnitStage::Locking(None), locked("101", None), 1, 2, "101");
    assert!(matches!(a, UnitAction::Freeze(None)));
    let (_, a) = unit_step(UnitStage::Locking(None), locked("102", None), 1, 2, "101");
    assert!(matches!(a, UnitAction::AnswerHeld(Hold::IdentityMismatch)));
    let meanwhile = FrozenUnit { id: 9, cohort: Some(1), source_row: Some(2), source_person: "101".into() };
    let (_, a) = unit_step(UnitStage::Locking(None), locked("101", Some(meanwhile)), 1, 2, "101");
    assert!(matches!(a, UnitAction::AnswerUnit(9)));

    let (_, a) = unit_step(UnitStage::Resolving, UnitEvent::Resolved(Some(Hold::SourceUnavailable)), 1, 2, "101");
    assert!(matches!(a, UnitAction::AnswerHeld(Hold::SourceUnavailable)));
    let other = FrozenUnit { id: 9, cohort: Some(1), source_row: Some(2), source_person: "102".into() };
    let read = UnitEvent::ReplayRead { family: "history".into(), phase: "classify".into(), frozen: Some(other) };
    let (_, a) = unit_step(UnitStage::Replaying, read, 1, 2, "101");
    assert!(matches!(a, UnitAction::Fail(MigrationError::Conflict)));
    let (_, a) = unit_step(UnitStage::Discovering, UnitEvent::Discovered(Err(Hold::LocalChange)), 1, 2, "101");
    assert!(matches!(a, UnitAction::StoreHeld(Hold::LocalChange)));
    let (_, a) = unit_step(UnitStage::Discovering, UnitEvent::Resolved(None), 1, 2, "101");
    assert!(matches!(a, UnitAction::Fail(MigrationError::Conflict)));
}
