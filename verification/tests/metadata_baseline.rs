use crm_migration::crypto::OrganizationId;
use crm_migration::error::MigrationError;
use crm_migration::family_refresh::activity_delta::Instant;
use crm_migration::family_refresh::metadata_baseline::{
    after_state, discovery_open, liveness_hold, ownership, prior_result_check, verify, verify_ownership,
    AfterState, Binding, PriorResult, Receipt, ReceiptKind, ReceiptOutcome,
};
use crm_migration::family_refresh::metadata_delta::{
    Alias, CustomFieldValue, Ownership, Snapshot, State,
};
use crm_migration::family_refresh::model::Hold;
use uuid::Uuid;

fn id() -> u128 {
    Uuid::new_v4().as_u128()
}

fn alias(b: u8) -> Alias {
    Alias::from_bytes(&[b; 32]).unwrap()
}

fn receipt(kind: ReceiptKind, key: &[u8], target: u128, outcome: ReceiptOutcome) -> Receipt {
    Receipt { kind, source_key: key.to_vec(), target: Some(target), outcome }
}

fn empty_state() -> State {
    State { tags: vec![], fields: vec![] }
}

#[test]
fn receipts_own_only_insertions_and_keep_all_supporting_aliases() {
    let tag = id();
    let local = id();
    let state = State { tags: vec![tag, local], fields: vec![] };
    let receipts = vec![
        receipt(ReceiptKind::TagLink, &[1; 32], tag, ReceiptOutcome::Applied),
        receipt(ReceiptKind::TagLink, &[2; 32], tag, ReceiptOutcome::AlreadyPresent),
        receipt(ReceiptKind::TagLink, &[3; 32], local, ReceiptOutcome::AlreadyPresent),
    ];
    let owned = ownership(&state, &receipts).unwrap();
    assert_eq!(owned.tags.len(), 1);
    assert_eq!(owned.tags[0].0, tag);
    assert_eq!(owned.tags[0].1, vec![alias(1), alias(2)]);
    let reversed: Vec<Receipt> = receipts.into_iter().rev().collect();
    let again = ownership(&state, &reversed).unwrap();
    assert_eq!(again.tags.len(), 1);
    assert_eq!(again.tags[0].0, tag);
    let mut support = again.tags[0].1.clone();
    support.sort_by_key(|a| (a.0, a.1));
    assert_eq!(support, vec![alias(1), alias(2)]);
}

#[test]
fn equal_and_held_fields_remain_unowned() {
    let applied = id();
    let equal = id();
    let held = id();
    let state = State {
        tags: vec![],
        fields: [applied, equal, held]
            .into_iter()
            .map(|f| (f, CustomFieldValue::Text("same".into())))
            .collect(),
    };
    let receipts = vec![
        receipt(ReceiptKind::Value, &[1; 32], applied, ReceiptOutcome::Applied),
        receipt(ReceiptKind::Value, &[2; 32], equal, ReceiptOutcome::AlreadyPresent),
        receipt(ReceiptKind::Value, &[3; 32], held, ReceiptOutcome::Other),
    ];
    assert_eq!(ownership(&state, &receipts).unwrap().fields, vec![applied]);
}

#[test]
fn malformed_or_conflicting_positive_receipts_never_grant_ownership() {
    let a = id();
    let b = id();
    let state = State { tags: vec![a, b], fields: vec![] };
    let short = vec![receipt(ReceiptKind::TagLink, &[1; 31], a, ReceiptOutcome::Applied)];
    assert!(matches!(ownership(&state, &short), Err(MigrationError::Crypto)));
    let conflicting = vec![
        receipt(ReceiptKind::TagLink, &[1; 32], a, ReceiptOutcome::Applied),
        receipt(ReceiptKind::TagLink, &[1; 32], b, ReceiptOutcome::AlreadyPresent),
    ];
    assert!(matches!(ownership(&state, &conflicting), Err(MigrationError::Crypto)));
    let absent = vec![receipt(ReceiptKind::Value, &[1; 32], a, ReceiptOutcome::Applied)];
    assert!(matches!(ownership(&empty_state(), &absent), Err(MigrationError::Crypto)));
    let untargeted = vec![Receipt {
        kind: ReceiptKind::TagLink,
        source_key: vec![1; 32],
        target: None,
        outcome: ReceiptOutcome::Applied,
    }];
    assert!(matches!(ownership(&state, &untargeted), Err(MigrationError::Crypto)));
    let unknown = vec![receipt(ReceiptKind::Other, &[1; 32], a, ReceiptOutcome::Applied)];
    assert!(matches!(ownership(&state, &unknown), Err(MigrationError::Crypto)));
}

#[test]
fn proof_rejects_legacy_wrong_binding_aba_and_unowned_state_changes() {
    let org = OrganizationId::new(id());
    let binding = Binding { organization: org, import: id(), manifest: id(), person: id() };
    let snapshot = Snapshot { person: binding.person, revision: 4, head: None, state: empty_state() };
    let stored = AfterState {
        version: 1,
        organization: org.0,
        import: binding.import,
        manifest: binding.manifest,
        snapshot: snapshot.clone(),
        ownership: Ownership { tags: vec![], fields: vec![] },
    };
    assert!(verify(Some(&stored), &binding, Some(&snapshot)).is_ok());
    assert!(matches!(verify(None, &binding, Some(&snapshot)), Err(Hold::BaselineUnproven)));
    let mut current = snapshot.clone();
    current.revision += 2;
    assert!(matches!(verify(Some(&stored), &binding, Some(&current)), Err(Hold::LocalChange)));
    current = snapshot.clone();
    current.state.tags.push(id());
    assert!(matches!(verify(Some(&stored), &binding, Some(&current)), Err(Hold::LocalChange)));
    let other = Binding { organization: OrganizationId::new(id()), ..binding };
    assert!(matches!(verify(Some(&stored), &other, Some(&snapshot)), Err(Hold::BaselineUnproven)));
    let legacy = AfterState { version: 0, ..stored };
    assert!(matches!(verify(Some(&legacy), &binding, Some(&snapshot)), Err(Hold::BaselineUnproven)));
}

#[test]
fn after_state_binds_its_receipts_and_ownership_is_reverified() {
    let org = OrganizationId::new(id());
    let tag = id();
    let snapshot = Snapshot { person: id(), revision: 2, head: None, state: State { tags: vec![tag], fields: vec![] } };
    let receipts = vec![receipt(ReceiptKind::TagLink, &[4; 32], tag, ReceiptOutcome::Applied)];
    let stored = after_state(org, id(), id(), snapshot.clone(), &receipts).unwrap();
    assert_eq!(stored.version, 1);
    assert_eq!(stored.ownership.tags, vec![(tag, vec![alias(4)])]);
    assert!(verify_ownership(&snapshot, &stored.ownership).is_ok());
    let shared = Ownership { tags: vec![(tag, vec![alias(4)]), (id(), vec![alias(4)])], fields: vec![] };
    assert_eq!(verify_ownership(&snapshot, &shared), Err(Hold::BaselineUnproven));
    let unsupported = Ownership { tags: vec![(tag, vec![])], fields: vec![] };
    assert_eq!(verify_ownership(&snapshot, &unsupported), Err(Hold::BaselineUnproven));
}

#[test]
fn discovery_runs_only_while_a_metadata_plan_maps_or_classifies() {
    assert_eq!(discovery_open("metadata", "mappings"), Ok(()));
    assert_eq!(discovery_open("metadata", "classify"), Ok(()));
    assert_eq!(discovery_open("metadata", "apply"), Err(MigrationError::Conflict));
    assert_eq!(discovery_open("activity", "mappings"), Err(MigrationError::Conflict));
    assert_eq!(liveness_hold(false), Some(Hold::TargetErased));
    assert_eq!(liveness_hold(true), None);
}

#[test]
fn only_an_ended_earlier_import_proves_first_coverage() {
    let cutoff = Instant { seconds: 100, nanos: 0 };
    let prior = |state: &str, at: Option<i64>, disposition: &str| PriorResult {
        owner_state: state.into(),
        terminal_at: at.map(|s| Instant { seconds: s, nanos: 0 }),
        disposition: disposition.into(),
    };
    assert_eq!(prior_result_check(None, cutoff), Some(Hold::FirstCoverageRequired));
    assert_eq!(prior_result_check(Some(&prior("completed", Some(100), "imported")), cutoff), None);
    assert_eq!(prior_result_check(Some(&prior("cancelled", Some(50), "imported")), cutoff), None);
    assert_eq!(
        prior_result_check(Some(&prior("running", Some(50), "imported")), cutoff),
        Some(Hold::FirstCoverageRequired)
    );
    assert_eq!(
        prior_result_check(Some(&prior("completed", Some(101), "imported")), cutoff),
        Some(Hold::FirstCoverageRequired)
    );
    assert_eq!(
        prior_result_check(Some(&prior("completed", None, "imported")), cutoff),
        Some(Hold::FirstCoverageRequired)
    );
    assert_eq!(prior_result_check(Some(&prior("completed", Some(90), "held")), cutoff), Some(Hold::BaselineUnproven));
}
