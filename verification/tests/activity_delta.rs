use crm_migration::family_refresh::activity_delta::{
    propose_insert, propose_update, Content, Doc, Instant, Members, Proposal, Scope, Source, Value,
};
use crm_migration::family_refresh::model::{Baseline, Current, Hold, Kind};
use uuid::Uuid;

fn id() -> u128 {
    Uuid::new_v4().as_u128()
}

fn instant(text: &str) -> Instant {
    let d = chrono::DateTime::parse_from_rfc3339(text).unwrap();
    Instant { seconds: d.timestamp(), nanos: d.timestamp_subsec_nanos() }
}

fn date() -> Instant {
    instant("2026-09-01T00:00:00Z")
}

fn text(s: &str) -> Value {
    Value::Text(s.as_bytes().to_vec())
}

fn uuid(x: u128) -> Value {
    text(&Uuid::from_u128(x).to_string())
}

fn get(d: &Doc, k: &str) -> Value {
    match d {
        Doc::Object(fields) => fields
            .iter()
            .find(|(n, _)| n.as_slice() == k.as_bytes())
            .map(|(_, v)| v.clone())
            .unwrap_or(Value::Null),
        Doc::Scalar(_) => Value::Null,
    }
}

fn set(d: &mut Doc, k: &str, v: Value) {
    if let Doc::Object(fields) = d {
        match fields.iter_mut().find(|(n, _)| n.as_slice() == k.as_bytes()) {
            Some(entry) => entry.1 = v,
            None => fields.push((k.as_bytes().to_vec(), v)),
        }
    }
}

fn fixture(task: bool) -> (u128, Baseline<Doc>, Current<Doc>, Source, Members) {
    let org = id();
    let target = id();
    let person = id();
    let mut native = Doc::Object(vec![]);
    for (k, v) in [
        ("id", uuid(target)),
        ("organization_id", uuid(org)),
        ("person_id", uuid(person)),
        ("origin", text("migration")),
        ("source", text("fub")),
        ("source_external_id", text("v1:17:1")),
        ("created_at", text("2026-09-01T00:00:00+00:00")),
        ("updated_at", text("2026-09-01T00:00:00+00:00")),
        ("deleted_at", Value::Null),
        ("deleted_by_user_id", Value::Null),
        ("correlation_id", uuid(id())),
        ("revision", Value::Number(b"1".to_vec())),
        ("local_extension", text("preserve")),
    ] {
        set(&mut native, k, v);
    }
    let content = if task {
        for (k, v) in [
            ("title", text("Follow up")),
            ("kind", text("call")),
            ("created_by_user_id", Value::Null),
            ("assignee_user_id", Value::Null),
            ("due_at", Value::Null),
            ("completed_at", Value::Null),
            ("completed_by_user_id", Value::Null),
        ] {
            set(&mut native, k, v);
        }
        Content::Task {
            title: "Follow up".into(),
            kind: "call".into(),
            creator: None,
            assignee: None,
            due: None,
            completed: None,
        }
    } else {
        set(&mut native, "body", text("Note"));
        set(&mut native, "author_user_id", Value::Null);
        Content::Note { body: "Note".into(), author: None }
    };
    (
        org,
        Baseline {
            result_id: id(),
            person_id: person,
            target_id: target,
            revision: 1,
            native: native.clone(),
            owned: true,
            head_id: None,
        },
        Current { person_id: person, target_id: target, revision: 1, native, deleted: false, head_id: None },
        Source { created: date(), updated: date(), content, content_valid: true },
        Members { all: vec![], active: vec![] },
    )
}

fn scope(org: u128, correlation: u128) -> Scope {
    Scope { organization: org, source_external_id: "v1:17:1".into(), correlation }
}

fn run(org: u128, b: &Baseline<Doc>, c: &Current<Doc>, s: &Source, m: &Members) -> Result<Proposal, Hold> {
    propose_update(&scope(org, id()), Some(b), Some(c), s, m, true)
}

fn set_completed(s: &mut Source, value: Option<Instant>) {
    if let Content::Task { completed, .. } = &mut s.content {
        *completed = value;
    }
}

#[test]
fn new_activity_preserves_fixed_ids_source_times_and_completion_attribution() {
    for task in [false, true] {
        let (org, b, _, mut source, members) = fixture(task);
        set_completed(&mut source, Some(date()));
        let p = propose_insert(&scope(org, b.result_id), b.person_id, b.target_id, &source, &members, false, true)
            .unwrap();
        assert_eq!(p.target, b.target_id);
        assert_eq!(get(&p.after, "id"), uuid(b.target_id));
        assert_eq!(get(&p.after, "created_at"), text("2026-09-01T00:00:00Z"));
        assert_eq!(get(&p.after, "revision"), Value::Number(b"1".to_vec()));
        assert_eq!(p.expected_revision, 0);
        assert!(p.expected_head.is_none());
        assert_eq!(p.counts.inserts, 1);
        assert!(p.counts.reconciles());
        if task {
            assert_eq!(p.kind, Kind::Task);
            assert_eq!(get(&p.after, "completed_at"), text("2026-09-01T00:00:00Z"));
            assert_eq!(get(&p.after, "completed_by_user_id"), Value::Null);
            assert_eq!(p.counts.task_completions, 0, "initial source state is not a native completion action");
        } else {
            assert_eq!(p.kind, Kind::Note);
        }
    }
}

#[test]
fn new_activity_needs_unconsumed_identity_and_valid_roles_and_content() {
    let (org, b, _, mut source, members) = fixture(true);
    let run = |source: &Source, consumed, coverage| {
        propose_insert(&scope(org, b.result_id), b.person_id, b.target_id, source, &members, consumed, coverage)
    };
    assert!(matches!(run(&source, true, true), Err(Hold::BaselineUnproven)));
    assert!(matches!(run(&source, false, false), Err(Hold::FirstCoverageRequired)));
    if let Content::Task { assignee, .. } = &mut source.content {
        *assignee = Some(id());
    }
    assert!(matches!(run(&source, false, true), Err(Hold::MappingRequired)));
    if let Content::Task { assignee, title, .. } = &mut source.content {
        *assignee = None;
        *title = "invalid\nmultiline".into();
    }
    source.content_valid = false;
    assert!(matches!(run(&source, false, true), Err(Hold::UnsupportedSource)));
}

#[test]
fn identical_source_does_not_write_merely_for_a_new_correlation_or_timestamp_format() {
    for task in [false, true] {
        let (org, b, c, s, m) = fixture(task);
        let p = run(org, &b, &c, &s, &m).unwrap();
        assert_eq!(p.after, c.native);
        assert_eq!(p.counts.already_current, 1);
        assert!(p.counts.reconciles());
    }
}

#[test]
fn completion_and_reopen_are_exact_and_never_invent_a_completion_actor() {
    let (org, mut b, mut c, mut s, m) = fixture(true);
    set_completed(&mut s, Some(date()));
    let completed = run(org, &b, &c, &s, &m).unwrap();
    assert_eq!(completed.counts.task_completions, 1);
    assert_eq!(completed.counts.task_reopens, 0);
    assert_eq!(get(&completed.after, "completed_by_user_id"), Value::Null);
    b.native = completed.after.clone();
    c.native = completed.after;
    set_completed(&mut s, None);
    let reopened = run(org, &b, &c, &s, &m).unwrap();
    assert_eq!(reopened.counts.task_reopens, 1);
    assert_eq!(reopened.counts.task_completions, 0);
    assert_eq!(get(&reopened.after, "completed_at"), Value::Null);
    assert_eq!(get(&reopened.after, "local_extension"), text("preserve"));
}

#[test]
fn local_edits_reverts_and_native_completions_hold_whole_task() {
    let (org, b, mut c, s, m) = fixture(true);
    c.revision += 2;
    assert!(matches!(run(org, &b, &c, &s, &m), Err(Hold::LocalChange)));
    c.revision = b.revision;
    set(&mut c.native, "local_extension", text("changed"));
    assert!(matches!(run(org, &b, &c, &s, &m), Err(Hold::LocalChange)));
    c.native = b.native.clone();
    set(&mut c.native, "completed_at", text("2026-09-01T00:00:00Z"));
    set(&mut c.native, "completed_by_user_id", uuid(id()));
    let mut b = b;
    b.native = c.native.clone();
    assert!(matches!(run(org, &b, &c, &s, &m), Err(Hold::LocalChange)));
}

#[test]
fn role_rules_distinguish_historical_creator_from_active_assignee() {
    let (org, b, c, mut s, mut m) = fixture(true);
    let member = id();
    m.all.push(member);
    if let Content::Task { creator, .. } = &mut s.content {
        *creator = Some(member);
    }
    assert!(run(org, &b, &c, &s, &m).is_ok());
    if let Content::Task { assignee, .. } = &mut s.content {
        *assignee = Some(member);
    }
    assert!(matches!(run(org, &b, &c, &s, &m), Err(Hold::MappingRequired)));
    m.active.push(member);
    assert!(run(org, &b, &c, &s, &m).is_ok());
}

#[test]
fn note_update_preserves_immutable_fields_and_rejects_unowned_erased_foreign_targets() {
    let (org, mut b, mut c, mut s, m) = fixture(false);
    if let Content::Note { body, .. } = &mut s.content {
        *body = "Updated\nNote".into();
    }
    let p = run(org, &b, &c, &s, &m).unwrap();
    assert_eq!(p.counts.updates, 1);
    assert_eq!(get(&p.after, "body"), text("Updated\nNote"));
    assert_ne!(get(&p.after, "correlation_id"), get(&c.native, "correlation_id"));
    for field in [
        "id",
        "person_id",
        "organization_id",
        "source",
        "source_external_id",
        "created_at",
        "origin",
        "revision",
        "local_extension",
    ] {
        assert_eq!(get(&p.after, field), get(&c.native, field));
    }
    assert!(matches!(run(id(), &b, &c, &s, &m), Err(Hold::IdentityMismatch)));
    b.owned = false;
    assert!(matches!(run(org, &b, &c, &s, &m), Err(Hold::BaselineUnproven)));
    b.owned = true;
    c.deleted = true;
    assert!(matches!(run(org, &b, &c, &s, &m), Err(Hold::TargetErased)));
}

#[test]
fn invalid_native_content_or_changed_creation_time_is_held_not_silently_adjusted() {
    let (org, b, c, mut s, m) = fixture(false);
    s.created = instant("2026-09-01T00:00:01Z");
    s.updated = s.created;
    assert!(matches!(run(org, &b, &c, &s, &m), Err(Hold::UnsupportedSource)));
    s.created = date();
    s.updated = date();
    if let Content::Note { body, .. } = &mut s.content {
        *body = " ".into();
    }
    s.content_valid = false;
    assert!(matches!(run(org, &b, &c, &s, &m), Err(Hold::UnsupportedSource)));
}

#[test]
fn malformed_rows_are_held_as_unproven() {
    let (org, b, mut c, s, m) = fixture(false);
    let mut b2 = b.clone();
    set(&mut c.native, "created_at", text("not a time"));
    b2.native = c.native.clone();
    assert!(matches!(run(org, &b2, &c, &s, &m), Err(Hold::BaselineUnproven)));
    let scalar = Doc::Scalar(Value::Null);
    let b3 = Baseline { native: scalar.clone(), ..b };
    let c3 = Current { native: scalar, ..c };
    assert!(matches!(run(org, &b3, &c3, &s, &m), Err(Hold::BaselineUnproven)));
}
