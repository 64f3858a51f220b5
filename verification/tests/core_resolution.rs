use crm_migration::error::MigrationError;
use crm_migration::family_refresh::core_resolution::{
    allows_resolution, payer_family, reconcile, source_id_valid, Group, Kind, Reconciled,
};
use crm_migration::family_refresh::model::{Family, Hold};
use crm_migration::snapshot_source::Stream;

fn group(stream: Stream, observations: i64, person: Option<&str>) -> Group {
    Group {
        representation: Some(stream),
        observations,
        variants: 1,
        people: 1,
        person: person.map(|p| p.to_string()),
        qualified: true,
        oversized: None,
        streams: 1,
    }
}

fn held(r: Result<Reconciled, MigrationError>) -> Option<Hold> {
    match r {
        Ok(Reconciled::Held(h)) => Some(h),
        _ => None,
    }
}

#[test]
fn source_ids_are_canonical_decimal_text() {
    assert!(source_id_valid("1"));
    assert!(source_id_valid("12345"));
    assert!(!source_id_valid(""));
    assert!(!source_id_valid("0"));
    assert!(!source_id_valid("012"));
    assert!(!source_id_valid("12a"));
    assert!(!source_id_valid("-1"));
    assert!(source_id_valid(&"9".repeat(128)));
    assert!(!source_id_valid(&"9".repeat(129)));
}

#[test]
fn each_family_resolves_only_its_own_kinds_while_mapping_or_classifying() {
    assert!(allows_resolution("metadata", "mappings", Kind::Person));
    assert!(allows_resolution("metadata", "classify", Kind::Field));
    assert!(!allows_resolution("metadata", "apply", Kind::Field));
    assert!(!allows_resolution("metadata", "mappings", Kind::Note));
    assert!(allows_resolution("activity", "mappings", Kind::Task));
    assert!(allows_resolution("activity", "classify", Kind::User));
    assert!(!allows_resolution("activity", "classify", Kind::Person));
    assert!(!allows_resolution("history", "classify", Kind::Note));
}

#[test]
fn the_paying_plan_must_still_hold_the_same_core_snapshot() {
    assert_eq!(payer_family("apply", "metadata", Some(3), Some(3)), Ok(Family::Metadata));
    assert_eq!(payer_family("finished", "activity", None, None), Ok(Family::Activity));
    assert_eq!(payer_family("apply", "metadata", Some(3), Some(4)), Err(MigrationError::Conflict));
    assert_eq!(payer_family("cancelled", "metadata", Some(3), Some(3)), Err(MigrationError::Conflict));
    assert_eq!(payer_family("apply", "history", Some(3), Some(3)), Err(MigrationError::Conflict));
}

#[test]
fn reconciliation_selects_only_a_consistent_record() {
    assert_eq!(held(reconcile(Kind::Person, &vec![])), Some(Hold::SourceNotObserved));
    match reconcile(Kind::Person, &vec![group(Stream::People, 3, Some("17"))]) {
        Ok(Reconciled::Selected { observations: 3, person: Some(p) }) => assert_eq!(p, "17"),
        _ => panic!("one consistent group is selected"),
    }
    let notes = vec![group(Stream::NoteDetail, 2, Some("5")), group(Stream::Notes, 4, Some("5"))];
    match reconcile(Kind::Note, &notes) {
        Ok(Reconciled::Selected { observations: 6, .. }) => {}
        _ => panic!("a note counts its list and detail observations"),
    }
    let split = vec![group(Stream::NoteDetail, 2, Some("5")), group(Stream::Notes, 4, Some("6"))];
    assert_eq!(held(reconcile(Kind::Note, &split)), Some(Hold::SourceConflict));
    let only_list = vec![group(Stream::Notes, 4, Some("5"))];
    assert_eq!(held(reconcile(Kind::Note, &only_list)), Some(Hold::SourceUnavailable));
    assert_eq!(held(reconcile(Kind::Person, &vec![group(Stream::Users, 1, Some("5"))])), Some(Hold::UnsupportedSource));
    assert_eq!(held(reconcile(Kind::Person, &vec![group(Stream::People, 1, None)])), Some(Hold::UnsupportedSource));
    match reconcile(Kind::Field, &vec![group(Stream::CustomFields, 1, None)]) {
        Ok(Reconciled::Selected { person: None, .. }) => {}
        _ => panic!("a field needs no person"),
    }
}

#[test]
fn reconciliation_holds_conflicts_and_disqualified_groups() {
    let mut g = group(Stream::People, 1, Some("1"));
    g.variants = 2;
    assert_eq!(held(reconcile(Kind::Person, &vec![g])), Some(Hold::SourceConflict));
    let mut g = group(Stream::TasksOpen, 1, Some("1"));
    g.streams = 2;
    assert_eq!(held(reconcile(Kind::Task, &vec![g])), Some(Hold::SourceConflict));
    let mut g = group(Stream::People, 1, Some("1"));
    g.qualified = false;
    g.oversized = Some(true);
    assert_eq!(held(reconcile(Kind::Person, &vec![g.clone()])), Some(Hold::UnitTooLarge));
    g.oversized = Some(false);
    assert_eq!(held(reconcile(Kind::Person, &vec![g])), Some(Hold::UnsupportedSource));
    let mut unknown = group(Stream::People, 1, Some("1"));
    unknown.representation = None;
    assert_eq!(held(reconcile(Kind::Person, &vec![unknown])), Some(Hold::UnsupportedSource));
    let big = vec![group(Stream::NoteDetail, i64::MAX, Some("5")), group(Stream::Notes, 1, Some("5"))];
    assert_eq!(reconcile(Kind::Note, &big).err(), Some(MigrationError::StorageLimit));
}
