use crm_migration::error::MigrationError;
use crm_migration::family_refresh::mapping_inventory::{
    check_existing, consistent, cursor_after, recorded, ExistingRow, fresh_mapping, reservation_bound, seed, slots, source_check, walk_start, window,
    Choice, ChoiceShape, Cursor, Progress, RecordShape, Reference, RoleShape, Seed, SourceColumns, SourceOwner,
    TagShape, Window,
};
use crm_migration::family_refresh::model::Family;

fn tag(raw: Option<&str>, label: Option<&str>, clean: bool) -> TagShape {
    TagShape { raw: raw.map(String::from), label: label.map(String::from), clean }
}

fn person(n: usize) -> RecordShape {
    RecordShape::Person {
        source_id: Some("7".into()),
        tags: (0..n).map(|i| tag(Some(&format!("t{i}")), Some("Group"), true)).collect(),
    }
}

fn field() -> RecordShape {
    RecordShape::Field {
        source_id: Some("f1".into()),
        label: Some("Stage".into()),
        clean: true,
        creatable: false,
        choices: vec![
            ChoiceShape { raw: Some("a".into()), label: Some("A".into()), clean: true },
            ChoiceShape { raw: None, label: None, clean: true },
            ChoiceShape { raw: Some("c".into()), label: None, clean: false },
        ],
    }
}

fn task(roles: &[(&str, &str)], source_type: Option<&str>) -> RecordShape {
    RecordShape::Activity {
        source_id: Some("t9".into()),
        person_id: Some("7".into()),
        stream: "tasks_open".into(),
        roles: roles.iter().map(|(r, s)| RoleShape { role: (*r).into(), source_id: (*s).into() }).collect(),
        source_type: source_type.map(String::from),
    }
}

fn columns(kind: &str, source_id: Option<&str>, person_id: Option<&str>) -> SourceColumns {
    SourceColumns { kind: kind.into(), source_id: source_id.map(String::from), person_id: person_id.map(String::from) }
}

#[test]
fn a_walk_opens_only_in_the_mappings_phase_of_a_non_history_plan() {
    assert_eq!(walk_start(Family::History, "mappings", false), Err(MigrationError::Conflict));
    assert_eq!(walk_start(Family::Metadata, "cohort", false), Err(MigrationError::Conflict));
    assert_eq!(walk_start(Family::Metadata, "mappings", true), Ok(Some(Progress::Finished)));
    assert_eq!(walk_start(Family::Activity, "mappings", false), Ok(None));
}

#[test]
fn a_paused_source_must_resume_and_its_owner_must_be_past_capture() {
    let owner = SourceOwner { family: Family::Metadata, phase: "mappings".into() };
    assert_eq!(source_check(Some(4), 5, &owner), Err(MigrationError::Crypto));
    assert_eq!(source_check(Some(5), 5, &owner), Ok(()));
    assert_eq!(source_check(None, 5, &owner), Ok(()));
    let early = SourceOwner { family: Family::Metadata, phase: "capture".into() };
    assert_eq!(source_check(None, 5, &early), Err(MigrationError::Conflict));
    let history = SourceOwner { family: Family::History, phase: "mappings".into() };
    assert_eq!(source_check(None, 5, &history), Err(MigrationError::Conflict));
}

#[test]
fn records_offer_one_element_per_tag_choice_role_and_task_kind() {
    assert_eq!(slots(&person(3)), 3);
    assert_eq!(slots(&field()), 4);
    assert_eq!(slots(&task(&[("task_creator", "u1"), ("task_assignee", "u2")], Some("Call"))), 3);
    assert_eq!(slots(&task(&[("task_creator", "u1")], None)), 1);
    let note = RecordShape::Activity {
        source_id: None,
        person_id: None,
        stream: "notes".into(),
        roles: vec![RoleShape { role: "note_author".into(), source_id: "u1".into() }],
        source_type: None,
    };
    assert_eq!(slots(&note), 0);
    assert_eq!(slots(&RecordShape::Oversized), 0);
}

#[test]
fn seeds_key_tags_fields_options_and_roles() {
    let t = seed(&person(2), 1).unwrap().unwrap();
    assert_eq!((t.kind.as_str(), t.purpose.as_str(), t.raw.as_slice()), ("tag", "tag-group", b"t1".as_slice()));
    assert!(t.qualified && t.creation_allowed);
    assert!(seed(&person(2), 2).unwrap().is_none());
    let unlabelled = RecordShape::Person { source_id: None, tags: vec![tag(Some("x"), None, true)] };
    let u = seed(&unlabelled, 0).unwrap().unwrap();
    assert_eq!(u.purpose, "tag-raw");
    assert!(!u.creation_allowed);

    let f = seed(&field(), 0).unwrap().unwrap();
    assert_eq!((f.kind.as_str(), f.raw.as_slice()), ("field", b"f1".as_slice()));
    assert!(f.qualified && !f.creation_allowed);
    let o = seed(&field(), 1).unwrap().unwrap();
    assert_eq!(o.kind, "option");
    assert_eq!(o.raw, b"[\"f1\",\"a\"]".to_vec());
    assert_eq!(o.parent, Some(b"f1".to_vec()));
    assert!(seed(&field(), 2).unwrap().is_none());
    let c = seed(&field(), 3).unwrap().unwrap();
    assert!(!c.qualified && !c.creation_allowed);

    let record = task(&[("task_creator", "u1")], Some("Call"));
    let r = seed(&record, 0).unwrap().unwrap();
    assert_eq!((r.kind.as_str(), r.raw.as_slice(), r.label.as_deref()), ("task_creator", b"u1".as_slice(), Some("u1")));
    let k = seed(&record, 1).unwrap().unwrap();
    assert_eq!((k.kind.as_str(), k.purpose.as_str()), ("task_kind", "task_kind"));
    assert!(matches!(seed(&task(&[("owner", "u1")], None), 0), Err(MigrationError::Crypto)));
}

#[test]
fn records_must_agree_with_their_rows() {
    assert!(consistent(Family::Metadata, &columns("person", Some("7"), Some("7")), &person(1)));
    assert!(!consistent(Family::Metadata, &columns("person", Some("7"), Some("8")), &person(1)));
    assert!(!consistent(Family::Activity, &columns("person", Some("7"), Some("7")), &person(1)));
    assert!(consistent(Family::Activity, &columns("task", Some("t9"), Some("7")), &task(&[], None)));
    assert!(!consistent(Family::Activity, &columns("note", Some("t9"), Some("7")), &task(&[], None)));
    assert!(consistent(Family::Metadata, &columns("field", None, None), &RecordShape::Oversized));
}

#[test]
fn a_step_takes_at_most_fifty_elements_and_resumes_where_it_ended() {
    let row = columns("person", Some("7"), Some("7"));
    let w = window(Family::Metadata, &row, &person(120), true, 0).unwrap();
    assert_eq!(w, Window { offset: 0, end: 50, total: 120 });
    assert_eq!(cursor_after(3, w), Ok(Cursor::SameSource { current: 3, offset: 50 }));
    let last = window(Family::Metadata, &row, &person(120), true, 100).unwrap();
    assert_eq!(last, Window { offset: 100, end: 120, total: 120 });
    assert_eq!(cursor_after(3, last), Ok(Cursor::NextSource { after: 3 }));
    let outside = window(Family::Metadata, &row, &person(120), false, 0).unwrap();
    assert_eq!(outside.total, 0);
    assert_eq!(window(Family::Metadata, &row, &person(3), true, 4), Err(MigrationError::Crypto));
    assert_eq!(window(Family::Metadata, &row, &person(3), true, -1), Err(MigrationError::Crypto));
    assert_eq!(window(Family::Activity, &row, &person(3), true, 0), Err(MigrationError::Crypto));
}

#[test]
fn reservations_cover_each_sealed_mapping() {
    assert_eq!(reservation_bound(&vec![]), Ok(None));
    assert_eq!(reservation_bound(&vec![100, 200]), Ok(Some(4096 + 2148 + 2248)));
    assert_eq!(reservation_bound(&vec![usize::MAX]), Err(MigrationError::StorageLimit));
}

#[test]
fn new_mappings_start_held_with_a_bounded_label() {
    let s = Seed {
        kind: "tag".into(),
        purpose: "tag-raw".into(),
        raw: b"x".to_vec(),
        parent: None,
        label: Some("y".repeat(2049)),
        qualified: false,
        creation_allowed: true,
    };
    let m = fresh_mapping(s, vec![1, 2], None, 9, 4);
    assert!(m.label.is_none());
    assert!(!m.creation_allowed);
    assert!(matches!(m.choice, Choice::Hold));
    assert_eq!(m.source, Some(Reference { row: 9, element: 4 }));
    let kept = Seed {
        kind: "tag".into(),
        purpose: "tag-raw".into(),
        raw: b"x".to_vec(),
        parent: None,
        label: Some("y".repeat(2048)),
        qualified: true,
        creation_allowed: true,
    };
    let m = fresh_mapping(kept, vec![], None, 9, 0);
    assert_eq!(m.label.map(|l| l.len()), Some(2048));
    assert!(m.creation_allowed);
}

#[test]
fn a_stored_mapping_must_be_the_one_the_step_would_record() {
    let seed = Seed {
        kind: "option".into(),
        purpose: "option".into(),
        raw: b"x".to_vec(),
        parent: None,
        label: None,
        qualified: true,
        creation_allowed: false,
    };
    let m = fresh_mapping(seed, vec![7, 7], Some(vec![1]), 9, 2);
    let row = ExistingRow { source_row_id: Some(9), source_element: Some(2), qualified: true, parent_id: Some(4) };
    assert_eq!(check_existing(&m, &row, "option", &vec![7, 7], &Some(vec![1]), Some(4)), Ok(()));
    assert_eq!(check_existing(&m, &row, "tag", &vec![7, 7], &Some(vec![1]), Some(4)), Err(MigrationError::Crypto));
    assert_eq!(check_existing(&m, &row, "option", &vec![7, 8], &Some(vec![1]), Some(4)), Err(MigrationError::Crypto));
    assert_eq!(check_existing(&m, &row, "option", &vec![7, 7], &None, Some(4)), Err(MigrationError::Crypto));
    assert_eq!(check_existing(&m, &row, "option", &vec![7, 7], &Some(vec![1]), None), Err(MigrationError::Crypto));
    let moved = ExistingRow { source_element: Some(3), ..row };
    assert_eq!(check_existing(&m, &moved, "option", &vec![7, 7], &Some(vec![1]), Some(4)), Err(MigrationError::Crypto));
}

#[test]
fn an_element_recorded_earlier_in_the_step_is_passed_over() {
    let ids = vec![("tag".to_string(), vec![1u8]), ("field".to_string(), vec![2u8])];
    assert!(recorded(&ids, "tag", &vec![1]));
    assert!(!recorded(&ids, "option", &vec![1]));
    assert!(!recorded(&ids, "tag", &vec![2]));
}
