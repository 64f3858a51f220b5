use crm_migration::crypto::OrganizationId;
use crm_migration::family_refresh::activity_delta::{Doc, Value};
use crm_migration::family_refresh::metadata_delta::{Alias, Ownership, Snapshot, State as MetadataState};
use crm_migration::family_refresh::model::Hold;
use crm_migration::family_refresh::native_baseline::{
    verify_activity, verify_metadata, AfterState, Proven, State,
};
use uuid::Uuid;

fn id() -> u128 {
    Uuid::new_v4().as_u128()
}

fn text(s: &str) -> Value {
    Value::Text(s.as_bytes().to_vec())
}

fn uuid(x: u128) -> Value {
    text(&Uuid::from_u128(x).to_string())
}

fn set(d: &mut Doc, k: &str, v: Value) {
    if let Doc::Object(fields) = d {
        match fields.iter_mut().find(|(n, _)| n.as_slice() == k.as_bytes()) {
            Some(entry) => entry.1 = v,
            None => fields.push((k.as_bytes().to_vec(), v)),
        }
    }
}

fn activity() -> (Proven, OrganizationId, Doc) {
    let org = OrganizationId::new(id());
    let person = id();
    let target = id();
    let mut native = Doc::Object(vec![]);
    for (k, v) in [
        ("id", uuid(target)),
        ("person_id", uuid(person)),
        ("organization_id", uuid(org.0)),
        ("revision", Value::Number(b"3".to_vec())),
        ("origin", text("migration")),
        ("source", text("fub")),
        ("source_external_id", text("v1:100:21")),
        ("deleted_at", Value::Null),
        ("deleted_by_user_id", Value::Null),
        ("title", text("refreshed")),
        ("snoozed_until", Value::Null),
    ] {
        set(&mut native, k, v);
    }
    (
        Proven {
            result: id(),
            revision: 3,
            snapshot: id(),
            sequence: 10,
            proof: AfterState {
                version: 1,
                manifest: id(),
                source_id: "21".into(),
                person,
                target,
                state: State::Task { native: native.clone(), owned: true },
            },
        },
        org,
        native,
    )
}

#[test]
fn prior_activity_keeps_successful_head_and_rejects_local_edits_or_erasure() {
    let (p, org, native) = activity();
    let result = p.result;
    let baseline = verify_activity(p, org, 100, Some(&native)).unwrap_or_else(|h| panic!("{h:?}"));
    assert_eq!(baseline.revision, 3);
    assert_eq!(baseline.head_id, Some(result));
    for field in ["revision", "title", "snoozed_until", "completed_at", "correlation_id"] {
        let (p, org, mut native) = activity();
        set(&mut native, field, text("changed"));
        assert!(matches!(verify_activity(p, org, 100, Some(&native)), Err(Hold::LocalChange)));
    }
    let (p, org, _) = activity();
    assert!(matches!(verify_activity(p, org, 100, None), Err(Hold::TargetErased)));
    let (p, org, mut native) = activity();
    set(&mut native, "deleted_at", text("2026-09-16T00:00:00Z"));
    assert!(matches!(verify_activity(p, org, 100, Some(&native)), Err(Hold::TargetErased)));
}

#[test]
fn prior_activity_proof_cannot_move_between_accounts_or_targets() {
    let (p, org, native) = activity();
    assert!(matches!(verify_activity(p, org, 101, Some(&native)), Err(Hold::BaselineUnproven)));
    let (mut p, org, native) = activity();
    p.proof.target = id();
    assert!(matches!(verify_activity(p, org, 100, Some(&native)), Err(Hold::BaselineUnproven)));
    let (mut p, org, native) = activity();
    if let State::Task { owned, .. } = &mut p.proof.state {
        *owned = false;
    }
    assert!(matches!(verify_activity(p, org, 100, Some(&native)), Err(Hold::BaselineUnproven)));
    let (mut p, org, native) = activity();
    p.revision = 2;
    assert!(matches!(verify_activity(p, org, 100, Some(&native)), Err(Hold::BaselineUnproven)));
}

#[test]
fn metadata_retains_only_proven_ownership_and_current_head() {
    let result = id();
    let person = id();
    let owned = id();
    let local = id();
    let snapshot = Snapshot {
        person,
        revision: 7,
        head: Some(result),
        state: MetadataState { tags: vec![owned, local], fields: vec![] },
    };
    let alias = |b: u8| Alias::from_bytes(&[b; 32]).unwrap();
    let mut p = Proven {
        result,
        revision: 7,
        snapshot: id(),
        sequence: 9,
        proof: AfterState {
            version: 1,
            manifest: id(),
            source_id: "101".into(),
            person,
            target: person,
            state: State::Metadata {
                snapshot: snapshot.clone(),
                ownership: Ownership { tags: vec![(owned, vec![alias(1), alias(2)])], fields: vec![] },
            },
        },
    };
    let (_, ownership) = verify_metadata(&p, &snapshot).unwrap_or_else(|h| panic!("{h:?}"));
    assert_eq!(ownership.tags.len(), 1);
    assert_eq!(ownership.tags[0].1.len(), 2);
    let mut changed = snapshot.clone();
    changed.revision += 2;
    assert!(matches!(verify_metadata(&p, &changed), Err(Hold::LocalChange)));
    changed = snapshot.clone();
    changed.head = Some(id());
    assert!(matches!(verify_metadata(&p, &changed), Err(Hold::StaleHead)));
    if let State::Metadata { ownership, .. } = &mut p.proof.state {
        ownership.tags.push((local, vec![alias(1)]));
    }
    assert!(matches!(verify_metadata(&p, &snapshot), Err(Hold::BaselineUnproven)));
}

#[test]
fn negative_accounts_are_part_of_the_source_key() {
    let (p, org, mut native) = activity();
    set(&mut native, "source_external_id", text("v1:-7:21"));
    let p = Proven {
        proof: AfterState {
            state: State::Task { native: native.clone(), owned: true },
            ..p.proof
        },
        ..p
    };
    assert!(verify_activity(p, org, -7, Some(&native)).is_ok());
}
