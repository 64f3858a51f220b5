use crm_migration::error::MigrationError;
use crm_migration::family_refresh::activity_delta::Instant;
use crm_migration::family_refresh::mapping_inventory::{Choice, Mapping, Reference, StoredMapping};
use crm_migration::family_refresh::mapping_selection::{
    existing, plan, plan_with, timezone, Destination, Found, Lookup, Selection, SourceField, Step,
};

fn mapping(kind: &str) -> Mapping {
    Mapping {
        kind: kind.to_string(),
        source_key: vec![1, 2, 3],
        parent_key: None,
        source: Some(Reference { row: 7, element: 2 }),
        label: Some("Label".to_string()),
        qualified: true,
        creation_allowed: true,
        choice: Choice::Hold,
        destination: None,
    }
}

fn when() -> Instant {
    Instant { seconds: 1_700_000_000, nanos: 0 }
}

fn stored(m: &Mapping, disposition: &str, target: Option<u128>) -> StoredMapping {
    StoredMapping {
        source_row_id: m.source.map(|r| r.row),
        source_element: m.source.map(|r| r.element as i32),
        kind: m.kind.clone(),
        source_key_hmac: m.source_key.clone(),
        parent_key: m.parent_key.clone(),
        qualified: m.qualified,
        disposition: disposition.to_string(),
        target_id: target,
    }
}

fn field_source() -> Option<SourceField> {
    Some(SourceField { field_type: Some("text".to_string()), name: Some("Budget".to_string()) })
}

#[test]
fn timezone_keeps_a_recognized_zone_and_refuses_other_text() {
    assert!(matches!(
        timezone(Some("America/Los_Angeles".into()), true),
        Ok(Choice::Timezone { ref zone }) if zone == "America/Los_Angeles"
    ));
    assert_eq!(timezone(Some("user-provided-offset".into()), false).err(), Some(MigrationError::InvalidInput));
    assert!(matches!(timezone(None, false), Ok(Choice::Hold)));
}

#[test]
fn hold_is_always_accepted_and_other_choices_need_a_qualified_mapping() {
    let mut m = mapping("tag");
    m.qualified = false;
    assert!(matches!(
        plan_with(&m, &None, &Selection::Hold, None, 9),
        Ok(Step::Decided { choice: Choice::Hold, destination: None })
    ));
    assert_eq!(
        plan_with(&m, &None, &Selection::CreateMatching, None, 9).err(),
        Some(MigrationError::InvalidImportChoice)
    );
}

#[test]
fn create_matching_takes_the_fresh_identifier_and_needs_a_parent_for_options() {
    let m = mapping("tag");
    assert!(matches!(
        plan_with(&m, &None, &Selection::CreateMatching, None, 42),
        Ok(Step::Decided { choice: Choice::CreateMatching { target: 42 }, destination: None })
    ));
    let option = mapping("option");
    assert_eq!(
        plan_with(&option, &None, &Selection::CreateMatching, None, 42).err(),
        Some(MigrationError::InvalidImportChoice)
    );
    assert!(plan_with(&option, &None, &Selection::CreateMatching, Some(5), 42).is_ok());
    let mut closed = mapping("field");
    closed.creation_allowed = false;
    assert!(plan_with(&closed, &None, &Selection::CreateMatching, None, 42).is_err());
    assert!(plan_with(&mapping("note_author"), &None, &Selection::CreateMatching, None, 42).is_err());
    match plan(&m, &None, &Selection::CreateMatching, None) {
        Ok(Step::Decided { choice: Choice::CreateMatching { .. }, destination: None }) => {}
        _ => panic!("a creatable tag gets a fresh destination"),
    }
}

#[test]
fn unassigned_and_kind_fit_only_their_mapping_kinds() {
    for kind in ["note_author", "task_creator", "task_assignee"] {
        assert!(matches!(
            plan_with(&mapping(kind), &None, &Selection::Unassigned, None, 1),
            Ok(Step::Decided { choice: Choice::Unassigned, .. })
        ));
    }
    assert!(plan_with(&mapping("tag"), &None, &Selection::Unassigned, None, 1).is_err());
    let pick = Selection::Kind { kind: "call".to_string() };
    assert!(matches!(
        plan_with(&mapping("task_kind"), &None, &pick, None, 1),
        Ok(Step::Decided { choice: Choice::Kind { ref kind }, .. }) if kind == "call"
    ));
    assert!(plan_with(&mapping("tag"), &None, &pick, None, 1).is_err());
}

#[test]
fn existing_targets_are_looked_up_in_the_table_of_their_kind() {
    let pick = Selection::Existing { target_id: 77 };
    assert!(matches!(
        plan_with(&mapping("tag"), &None, &pick, None, 1),
        Ok(Step::Lookup { lookup: Lookup::Tag, target: 77 })
    ));
    assert!(matches!(
        plan_with(&mapping("task_assignee"), &None, &pick, None, 1),
        Ok(Step::Lookup { lookup: Lookup::Member, target: 77 })
    ));
    assert_eq!(plan_with(&mapping("field"), &None, &pick, None, 1).err(), Some(MigrationError::Crypto));
    assert!(matches!(
        plan_with(&mapping("field"), &field_source(), &pick, None, 1),
        Ok(Step::Lookup { lookup: Lookup::Field, target: 77 })
    ));
    assert_eq!(
        plan_with(&mapping("timezone"), &None, &pick, None, 1).err(),
        Some(MigrationError::InvalidImportChoice)
    );
}

#[test]
fn existing_checks_the_found_row() {
    let tag = mapping("tag");
    assert_eq!(existing(&tag, &None, None, 5, None).err(), Some(MigrationError::InvalidImportChoice));
    let found = Found::Tag { label: "Hot".to_string(), updated_at: when() };
    match existing(&tag, &None, None, 5, Some(found)) {
        Ok((Choice::Existing { target: 5 }, Some(d))) => assert_eq!(d.id(), 5),
        _ => panic!("a found tag is the destination"),
    }
    let field = mapping("field");
    let native = |ty: &str, source: Option<&str>, key: Option<&str>| Found::Field {
        label: "Budget".to_string(),
        field_type: ty.to_string(),
        source: source.map(|s| s.to_string()),
        external_key: key.map(|s| s.to_string()),
        updated_at: when(),
    };
    assert!(existing(&field, &field_source(), None, 6, Some(native("text", None, None))).is_ok());
    assert!(existing(&field, &field_source(), None, 6, Some(native("text", Some("fub"), Some("Budget")))).is_ok());
    assert!(existing(&field, &field_source(), None, 6, Some(native("number", None, None))).is_err());
    assert!(existing(&field, &field_source(), None, 6, Some(native("text", Some("csv"), Some("Budget")))).is_err());
    assert!(existing(&field, &field_source(), None, 6, Some(native("text", Some("fub"), Some("Other")))).is_err());
    let option = mapping("option");
    let opt = || Some(Found::Option { field_id: 3, label: "A".to_string(), updated_at: when() });
    assert!(existing(&option, &None, Some(3), 8, opt()).is_ok());
    assert!(existing(&option, &None, Some(4), 8, opt()).is_err());
    let member = |status: &str| Some(Found::Member { label: "Ann".to_string(), status: status.to_string() });
    assert!(existing(&mapping("task_assignee"), &None, None, 9, member("inactive")).is_err());
    assert!(existing(&mapping("task_assignee"), &None, None, 9, member("active")).is_ok());
    assert!(existing(&mapping("note_author"), &None, None, 9, member("inactive")).is_ok());
    assert!(existing(&tag, &None, None, 9, member("active")).is_err());
}

#[test]
fn columns_name_the_disposition_and_target() {
    assert_eq!(Choice::Hold.columns(), ("hold", None));
    assert_eq!(Choice::Existing { target: 4 }.columns(), ("existing", Some(4)));
    assert_eq!(Choice::CreateMatching { target: 5 }.columns(), ("create_matching", Some(5)));
    assert_eq!(Choice::Unassigned.columns(), ("unassigned", None));
    assert_eq!(Choice::Kind { kind: "call".into() }.columns(), ("kind", None));
    assert_eq!(Choice::Timezone { zone: "UTC".into() }.columns(), ("timezone", None));
}

#[test]
fn a_mapping_verifies_only_against_its_own_row() {
    let m = mapping("tag");
    let row = stored(&m, "hold", None);
    assert!(m.verify(&row).is_ok());
    let mut other = row.clone();
    other.disposition = "existing".to_string();
    assert_eq!(m.verify(&other).err(), Some(MigrationError::Crypto));
    let mut other = row.clone();
    other.source_key_hmac = vec![9];
    assert!(m.verify(&other).is_err());
    let mut other = row.clone();
    other.source_element = Some(3);
    assert!(m.verify(&other).is_err());
    let mut other = row.clone();
    other.qualified = false;
    assert!(m.verify(&other).is_err());

    let mut chosen = mapping("tag");
    chosen.choice = Choice::Existing { target: 11 };
    chosen.destination = Some(Destination::Tag { id: 11, label: "Hot".into(), updated_at: when() });
    assert!(chosen.verify(&stored(&chosen, "existing", Some(11))).is_ok());
    assert!(chosen.verify(&stored(&chosen, "existing", Some(12))).is_err());
    chosen.destination = Some(Destination::Tag { id: 12, label: "Hot".into(), updated_at: when() });
    assert!(chosen.verify(&stored(&chosen, "existing", Some(11))).is_err());
    chosen.destination = None;
    assert!(chosen.verify(&stored(&chosen, "existing", Some(11))).is_err());

    let mut zone = mapping("timezone");
    zone.source = None;
    assert!(zone.verify(&stored(&zone, "hold", None)).is_ok());
    let mut sourceless = mapping("tag");
    sourceless.source = None;
    assert!(sourceless.verify(&stored(&sourceless, "hold", None)).is_err());
}
