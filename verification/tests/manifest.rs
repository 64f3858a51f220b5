use crm_migration::error::MigrationError;
use crm_migration::family_refresh::activity_delta::{Content, Doc, Instant, Members, Scope, Source, Value};
use crm_migration::family_refresh::manifest::{
    activity_entry, activity_kind, check_existing_unit, check_new_identity,
    activity_proposal, advance, byte_bound, disposition_of, held_unit_counts, metadata_proposal,
    source_only_total, Disposition,
};
use crm_migration::family_refresh::metadata_delta::{
    Catalog, Ownership, Snapshot, Source as PersonSource, State, Tags,
};
use crm_migration::family_refresh::model::{Baseline, Counts, Hold, Kind};

fn counts(inserts: u64, updates: u64, already_current: u64) -> Counts {
    Counts { units: 1, inserts, updates, already_current, ..Counts::default() }
}

#[test]
fn a_ready_unit_is_named_by_its_single_action() {
    assert_eq!(disposition_of(&counts(1, 0, 0), true), Ok(Disposition::Insert));
    assert_eq!(disposition_of(&counts(1, 0, 0), false), Err(MigrationError::Crypto));
    assert_eq!(disposition_of(&counts(0, 1, 0), false), Ok(Disposition::Update));
    assert_eq!(disposition_of(&counts(0, 0, 1), true), Ok(Disposition::AlreadyCurrent));
    assert_eq!(disposition_of(&counts(0, 0, 0), true), Err(MigrationError::Crypto));
    assert_eq!(Disposition::AlreadyCurrent.as_str(), "already_current");
    assert_eq!(Disposition::Held.as_str(), "held");
    let held = held_unit_counts();
    assert_eq!((held.units, held.held, held.inserts), (1, 1, 0));
    assert!(held.reconciles());
}

#[test]
fn source_only_values_and_storage_bounds_never_overflow() {
    assert_eq!(source_only_total(&vec![]), Ok(0));
    assert_eq!(source_only_total(&vec![2, 3, 4]), Ok(9));
    assert_eq!(source_only_total(&vec![u64::MAX, 1]), Err(MigrationError::StorageLimit));
    assert_eq!(byte_bound(100), Ok(16484));
    assert_eq!(byte_bound(usize::MAX), Err(MigrationError::StorageLimit));
}

#[test]
fn plan_totals_advance_one_unit_at_a_time_and_always_reconcile() {
    let totals = Counts::default();
    let (t, p) = advance(&totals, &counts(1, 0, 0), 4).unwrap();
    assert_eq!((t.units, t.inserts, p), (1, 1, 5));
    let (t, p) = advance(&t, &held_unit_counts(), p).unwrap();
    assert_eq!((t.units, t.held, p), (2, 1, 6));
    assert_eq!(advance(&t, &counts(0, 0, 0), 6).err(), Some(MigrationError::Crypto));
    assert_eq!(advance(&t, &counts(1, 0, 0), i64::MAX).err(), Some(MigrationError::Crypto));
}

fn source() -> Source {
    let at = Instant { seconds: 1_788_220_800, nanos: 0 };
    Source { created: at, updated: at, content: Content::Note { body: "Note".into(), author: None }, content_valid: true }
}

fn scope() -> Scope {
    Scope { organization: 1, source_external_id: "v1:17:1".into(), correlation: 2 }
}

#[test]
fn activity_records_insert_only_without_any_identity_head() {
    let members = Members { all: vec![], active: vec![] };
    let fresh = activity_proposal(&scope(), 7, 99, &source(), &members, None, None, &vec![]).ok().unwrap();
    assert_eq!(fresh.target, 99);
    assert_eq!(fresh.counts.inserts, 1);
    let headed = activity_proposal(&scope(), 7, 99, &source(), &members, None, None, &vec![5]);
    assert_eq!(headed.err(), Some(Hold::BaselineUnproven));
    let baseline = Baseline {
        result_id: 3,
        person_id: 7,
        target_id: 50,
        revision: 1,
        native: Doc::Object(vec![(b"body".to_vec(), Value::Text(b"Note".to_vec()))]),
        owned: true,
        head_id: None,
    };
    let split = activity_proposal(&scope(), 7, 99, &source(), &members, Some(&baseline), None, &vec![5, 6]);
    assert_eq!(split.err(), Some(Hold::IdentityMismatch));
}

#[test]
fn a_person_with_two_identity_heads_is_held() {
    let snapshot = Snapshot { person: 7, revision: 3, head: None, state: State { tags: vec![], fields: vec![] } };
    let ownership = Ownership { tags: vec![], fields: vec![] };
    let catalog = Catalog { live_tags: vec![], live_fields: vec![], tag_limit: 100 };
    let source = PersonSource { tags: Tags::Complete(vec![]), fields: vec![] };
    let held = metadata_proposal(&snapshot, snapshot.clone(), &vec![1, 2], &ownership, &source, &catalog);
    assert_eq!(held.err(), Some(Hold::IdentityMismatch));
    let ready = metadata_proposal(&snapshot, snapshot.clone(), &vec![], &ownership, &source, &catalog);
    assert_eq!(ready.ok().map(|p| p.counts.already_current), Some(1));
}

#[test]
fn only_notes_and_tasks_enter_activity_preparation() {
    assert_eq!(activity_kind(Kind::Note), Ok("note"));
    assert_eq!(activity_kind(Kind::Task), Ok("task"));
    assert_eq!(activity_kind(Kind::Call), Err(MigrationError::InvalidInput));
    assert_eq!(activity_kind(Kind::Metadata), Err(MigrationError::InvalidInput));
}

#[test]
fn activity_units_enter_only_for_their_own_cohort_person() {
    assert_eq!(activity_entry("activity", true, "101", None), Err(MigrationError::Crypto));
    assert_eq!(activity_entry("metadata", true, "101", Some("101")), Err(MigrationError::ImportBusy));
    assert_eq!(activity_entry("activity", false, "101", Some("101")), Err(MigrationError::ImportBusy));
    assert_eq!(activity_entry("activity", true, "101", Some("102")), Ok(Some(Hold::IdentityMismatch)));
    assert_eq!(activity_entry("activity", true, "101", Some("101")), Ok(None));
    assert_eq!(check_existing_unit(Some(1), Some(2), 1, 2), Ok(()));
    assert_eq!(check_existing_unit(Some(1), None, 1, 2), Err(MigrationError::Crypto));
    assert_eq!(check_new_identity(5, 6, 5, 6), Ok(()));
    assert_eq!(check_new_identity(5, 7, 5, 6), Err(MigrationError::Crypto));
}
