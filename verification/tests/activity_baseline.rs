use crm_migration::crypto::OrganizationId;
use crm_migration::error::MigrationError;
use crm_migration::family_refresh::activity_baseline::{verify, AfterState, Binding};
use crm_migration::family_refresh::activity_delta::{Doc, Value};
use crm_migration::family_refresh::model::Hold;
use uuid::Uuid;

fn text(s: &str) -> Value {
    Value::Text(s.as_bytes().to_vec())
}

fn uuid(x: Uuid) -> Value {
    text(&x.to_string())
}

fn set(d: &mut Doc, k: &str, v: Value) {
    if let Doc::Object(fields) = d {
        match fields.iter_mut().find(|(n, _)| n.as_slice() == k.as_bytes()) {
            Some(entry) => entry.1 = v,
            None => fields.push((k.as_bytes().to_vec(), v)),
        }
    }
}

#[test]
fn after_state_rejects_missing_proof_wrong_owner_local_edits_and_aba() {
    let org = OrganizationId::new(Uuid::new_v4().as_u128());
    let person = Uuid::new_v4();
    let target = Uuid::new_v4();
    let first = Uuid::new_v4();
    let result = Uuid::new_v4();
    let mut row = Doc::Object(vec![]);
    for (k, v) in [
        ("id", uuid(target)),
        ("organization_id", uuid(Uuid::from_u128(org.0))),
        ("person_id", uuid(person)),
        ("correlation_id", uuid(first)),
        ("source", text("fub")),
        ("source_external_id", text("100:note:11")),
        ("origin", text("migration")),
        ("revision", Value::Number(b"1".to_vec())),
        ("body", text("original")),
        ("deleted_at", Value::Null),
        ("deleted_by_user_id", Value::Null),
    ] {
        set(&mut row, k, v);
    }
    let proof = AfterState { version: 1, native: row.clone() };
    let bind = || Binding {
        organization: org,
        person: person.as_u128(),
        target: target.as_u128(),
        result: result.as_u128(),
        first_import: first.as_u128(),
        native_source_key: "100:note:11".to_string(),
    };
    assert!(verify(Some(&proof), &bind(), Some(&row)).unwrap().owned);
    assert_eq!(verify(None, &bind(), Some(&row)).err(), Some(Hold::BaselineUnproven));
    assert_eq!(
        verify(Some(&proof), &Binding { first_import: Uuid::new_v4().as_u128(), ..bind() }, Some(&row)).err(),
        Some(Hold::BaselineUnproven)
    );
    let mut edited = row.clone();
    set(&mut edited, "body", text("changed"));
    assert_eq!(verify(Some(&proof), &bind(), Some(&edited)).err(), Some(Hold::LocalChange));
    edited = row.clone();
    set(&mut edited, "revision", Value::Number(b"3".to_vec()));
    assert_eq!(verify(Some(&proof), &bind(), Some(&edited)).err(), Some(Hold::LocalChange));
    assert_eq!(verify(Some(&proof), &bind(), None).err(), Some(Hold::TargetErased));
}

#[test]
fn current_rows_must_name_their_identity_and_revision() {
    let org = OrganizationId::new(Uuid::new_v4().as_u128());
    let person = Uuid::new_v4();
    let target = Uuid::new_v4();
    let first = Uuid::new_v4();
    let mut row = Doc::Object(vec![]);
    for (k, v) in [
        ("id", uuid(target)),
        ("organization_id", uuid(Uuid::from_u128(org.0))),
        ("person_id", uuid(person)),
        ("correlation_id", uuid(first)),
        ("source", text("fub")),
        ("source_external_id", text("k")),
        ("origin", text("migration")),
        ("revision", Value::Number(b"1".to_vec())),
        ("deleted_at", Value::Null),
        ("deleted_by_user_id", Value::Null),
    ] {
        set(&mut row, k, v);
    }
    let proof = AfterState::captured(row.clone()).ok().unwrap();
    let binding = Binding {
        organization: org,
        person: person.as_u128(),
        target: target.as_u128(),
        result: 7,
        first_import: first.as_u128(),
        native_source_key: "k".to_string(),
    };
    let mut broken = row.clone();
    set(&mut broken, "person_id", text("not a uuid"));
    assert_eq!(verify(Some(&proof), &binding, Some(&broken)).err(), Some(Hold::IdentityMismatch));
    let mut float = row.clone();
    set(&mut float, "revision", Value::Number(b"1.0".to_vec()));
    assert_eq!(verify(Some(&proof), &binding, Some(&float)).err(), Some(Hold::BaselineUnproven));
    let mut deleted = row.clone();
    set(&mut deleted, "deleted_at", text("2026-09-01T00:00:00Z"));
    assert!(matches!(AfterState::captured(deleted), Err(MigrationError::SourceNotEligible)));
    let b = verify(Some(&proof), &binding, Some(&row)).unwrap();
    assert_eq!(b.revision, 1);
    assert_eq!(b.result_id, 7);
    assert_eq!(b.native, row);
}
