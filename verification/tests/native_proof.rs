use chrono::Datelike;
use crm_migration::error::MigrationError;
use crm_migration::family_refresh::activity_delta::{Doc, Instant, Proposal, Value};
use crm_migration::family_refresh::metadata_delta::{Change, CustomFieldValue};
use crm_migration::family_refresh::model::{Baseline, Counts, Kind};
use crm_migration::family_refresh::native_proof::{
    activity_draft, catalog_draft, change_row_of, metadata_drafts, route, CatalogSource,
    DraftContext, Route, Table,
};
use uuid::Uuid;

fn ctx() -> DraftContext {
    DraftContext { organization: 1, bundle: 2, actor: 3, timestamp: Instant { seconds: 1_700_000_000, nanos: 0 } }
}

fn text(s: &str) -> Value {
    Value::Text(s.as_bytes().to_vec())
}

fn id(x: u128) -> Value {
    text(&Uuid::from_u128(x).to_string())
}

fn field<'a>(d: &'a Doc, key: &str) -> Option<&'a Value> {
    match d {
        Doc::Object(fields) => fields.iter().find(|(n, _)| n.as_slice() == key.as_bytes()).map(|(_, v)| v),
        Doc::Scalar(_) => None,
    }
}

fn keys(d: &Doc) -> usize {
    match d {
        Doc::Object(fields) => fields.len(),
        Doc::Scalar(_) => 0,
    }
}

const STAMP: &str = "2023-11-14T22:13:20Z";

#[test]
fn units_are_routed_by_disposition_and_kind() {
    assert_eq!(route("insert", "note"), Ok(Route::Activity(Table::Note)));
    assert_eq!(route("update", "task"), Ok(Route::Activity(Table::Task)));
    assert_eq!(route("update", "metadata"), Ok(Route::Metadata));
    assert_eq!(route("insert", "catalog"), Ok(Route::Catalog));
    assert_eq!(route("insert", "event"), Ok(Route::Skip));
    assert_eq!(route("already_current", "metadata"), Ok(Route::Skip));
    assert_eq!(route("insert", "unknown"), Err(MigrationError::Crypto));
}

#[test]
fn a_stale_person_gets_no_drafts() {
    let changes = vec![Change::AddTag(9)];
    let befores = vec![None];
    assert_eq!(metadata_drafts(&ctx(), 7, 4, Some(5), &changes, &befores).unwrap().len(), 0);
    assert_eq!(metadata_drafts(&ctx(), 7, 4, None, &changes, &befores).unwrap().len(), 0);
}

#[test]
fn person_changes_draft_their_rows_at_consecutive_revisions() {
    let day = chrono::NaiveDate::from_ymd_opt(2024, 1, 2).unwrap().num_days_from_ce();
    let existing = Doc::Object(vec![
        (b"organization_id".to_vec(), id(1)),
        (b"person_id".to_vec(), id(7)),
        (b"field_id".to_vec(), id(20)),
        (b"text_value".to_vec(), text("old")),
    ]);
    let changes = vec![
        Change::AddTag(9),
        Change::RemoveTag(10),
        Change::SetField(11, CustomFieldValue::Text("hello".to_string())),
        Change::SetField(20, CustomFieldValue::Date(day)),
        Change::ClearField(21),
    ];
    assert_eq!(change_row_of(&changes[3]), (Table::PersonValue, 20, false));
    let befores = vec![None, Some(Doc::Object(vec![])), None, Some(existing), Some(Doc::Object(vec![]))];
    let drafts = metadata_drafts(&ctx(), 7, 4, Some(4), &changes, &befores).unwrap();
    assert_eq!(drafts.len(), 5);
    for (i, d) in drafts.iter().enumerate() {
        assert_eq!(d.expected_revision, Some(4 + i as i64));
    }
    let tag = drafts[0].after.as_ref().unwrap();
    assert_eq!(drafts[0].table, Table::PersonTag);
    assert_eq!(field(tag, "tag_id"), Some(&id(9)));
    assert_eq!(field(tag, "added_by_user_id"), Some(&id(3)));
    assert_eq!(field(tag, "created_at"), Some(&text(STAMP)));
    assert_eq!(keys(tag), 5);
    assert!(drafts[1].after.is_none() && drafts[1].before.is_some());
    let fresh = drafts[2].after.as_ref().unwrap();
    assert_eq!(field(fresh, "field_type"), Some(&text("text")));
    assert_eq!(field(fresh, "text_value"), Some(&text("hello")));
    assert_eq!(field(fresh, "date_value"), Some(&Value::Null));
    assert_eq!(field(fresh, "origin"), Some(&text("migration")));
    assert_eq!(field(fresh, "correlation_id"), Some(&id(2)));
    let updated = drafts[3].after.as_ref().unwrap();
    assert_eq!(field(updated, "text_value"), Some(&Value::Null));
    assert_eq!(field(updated, "date_value"), Some(&text("2024-01-02")));
    assert_eq!(field(updated, "field_type"), None);
    assert_eq!(field(updated, "updated_at"), Some(&text(STAMP)));
    assert!(drafts[4].after.is_none());
}

#[test]
fn a_removal_without_a_current_row_is_a_conflict() {
    let changes = vec![Change::AddTag(9), Change::ClearField(10)];
    let befores = vec![None, None];
    assert_eq!(metadata_drafts(&ctx(), 7, 4, Some(4), &changes, &befores).err(), Some(MigrationError::Conflict));
    let overflow = metadata_drafts(&ctx(), 7, i64::MAX, Some(i64::MAX), &changes, &vec![None, Some(Doc::Object(vec![]))]);
    assert_eq!(overflow.err(), Some(MigrationError::Crypto));
}

fn catalog(kind: &str) -> CatalogSource {
    CatalogSource {
        kind: kind.to_string(),
        label: Some("Budget".to_string()),
        field_type: Some("number".to_string()),
        machine_name: Some("customBudget".to_string()),
        parent: Some(30),
        element: Some(2),
    }
}

#[test]
fn catalog_destinations_are_created_after_the_existing_ones() {
    let tag = catalog_draft(&ctx(), 40, &catalog("tag"), 1, 0).unwrap();
    assert_eq!(tag.table, Table::Tag);
    let row = tag.after.as_ref().unwrap();
    assert_eq!(field(row, "name"), Some(&text("Budget")));
    assert_eq!(field(row, "id"), Some(&id(40)));
    assert!(tag.before.is_none() && tag.expected_revision.is_none());
    let f = catalog_draft(&ctx(), 41, &catalog("field"), 3, 7).unwrap();
    let row = f.after.as_ref().unwrap();
    assert_eq!(field(row, "position"), Some(&Value::Number(b"10".to_vec())));
    assert_eq!(field(row, "source"), Some(&text("fub")));
    assert_eq!(field(row, "external_key"), Some(&text("customBudget")));
    assert_eq!(field(row, "field_type"), Some(&text("number")));
    let o = catalog_draft(&ctx(), 42, &catalog("option"), 3, 5).unwrap();
    let row = o.after.as_ref().unwrap();
    assert_eq!(field(row, "position"), Some(&Value::Number(b"7".to_vec())));
    assert_eq!(field(row, "field_id"), Some(&id(30)));
    let negative = catalog_draft(&ctx(), 41, &catalog("field"), -9, 2).unwrap();
    assert_eq!(field(negative.after.as_ref().unwrap(), "position"), Some(&Value::Number(b"-7".to_vec())));
}

#[test]
fn catalog_drafts_refuse_incomplete_sources() {
    let mut unlabeled = catalog("tag");
    unlabeled.label = None;
    assert_eq!(catalog_draft(&ctx(), 40, &unlabeled, 1, 0).err(), Some(MigrationError::Crypto));
    let mut orphan = catalog("option");
    orphan.parent = None;
    assert_eq!(catalog_draft(&ctx(), 40, &orphan, 1, 0).err(), Some(MigrationError::Crypto));
    assert_eq!(catalog_draft(&ctx(), 40, &catalog("stage"), 1, 0).err(), Some(MigrationError::Crypto));
    assert_eq!(catalog_draft(&ctx(), 40, &catalog("field"), 1, i32::MAX).err(), Some(MigrationError::Crypto));
    assert_eq!(catalog_draft(&ctx(), 40, &catalog("field"), i64::from(i32::MAX) + 1, 0).err(), Some(MigrationError::Crypto));
}

#[test]
fn activity_writes_go_from_the_baseline_row_to_the_proposed_row() {
    let after = Doc::Object(vec![(b"body".to_vec(), text("new"))]);
    let proposal = Proposal {
        kind: Kind::Note,
        target: 50,
        person: 7,
        expected_revision: 2,
        expected_head: None,
        after: after.clone(),
        counts: Counts::default(),
    };
    let fresh = activity_draft(Table::Note, &proposal, &None);
    assert_eq!(fresh.target, 50);
    assert!(fresh.before.is_none() && fresh.expected_revision.is_none());
    assert_eq!(fresh.after, Some(after.clone()));
    let prior = Doc::Object(vec![(b"body".to_vec(), text("old"))]);
    let baseline = Baseline {
        result_id: 1,
        person_id: 7,
        target_id: 50,
        revision: 2,
        native: prior.clone(),
        owned: true,
        head_id: None,
    };
    let update = activity_draft(Table::Note, &proposal, &Some(baseline));
    assert_eq!(update.expected_revision, Some(2));
    assert_eq!(update.before, Some(prior));
}
