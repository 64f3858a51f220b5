use crm_migration::family_refresh::metadata_delta::{
    propose, Alias, Candidate, Catalog, Change, CustomFieldValue, Field, FieldIntent, FieldType,
    Gap, Ownership, Snapshot, Source, State, Tags,
};
use crm_migration::family_refresh::model::Hold;
use uuid::Uuid;

fn id() -> u128 {
    Uuid::new_v4().as_u128()
}

fn alias(b: u8) -> Alias {
    Alias::from_bytes(&[b; 32]).unwrap()
}

fn text(s: &str) -> CustomFieldValue {
    CustomFieldValue::Text(s.to_string())
}

fn set(value: CustomFieldValue, native_valid: bool) -> FieldIntent {
    FieldIntent::SetValue(Candidate { value, native_valid })
}

fn fixture() -> (Snapshot, Ownership, Catalog, u128, u128) {
    let owned = id();
    let local = id();
    let field = id();
    (
        Snapshot {
            person: id(),
            revision: 3,
            head: None,
            state: State { tags: vec![owned, local], fields: vec![(field, text("before"))] },
        },
        Ownership { tags: vec![(owned, vec![alias(1), alias(2)])], fields: vec![field] },
        Catalog {
            live_tags: vec![owned, local],
            live_fields: vec![(field, Field { kind: FieldType::Text, live_options: vec![] })],
            tag_limit: 100,
        },
        owned,
        field,
    )
}

fn empty() -> Source {
    Source { tags: Tags::Complete(vec![]), fields: vec![] }
}

fn has_tag(state: &State, t: u128) -> bool {
    state.tags.contains(&t)
}

fn has_field(state: &State, f: u128) -> bool {
    state.fields.iter().any(|(k, _)| *k == f)
}

#[test]
fn removal_needs_all_aliases_absent_and_preserves_unowned_links() {
    let (b, ownership, catalog, owned, _) = fixture();
    let source = Source { tags: Tags::Complete(vec![(alias(2), owned)]), fields: vec![] };
    let kept = propose(Some(&b), Some(&b), &ownership, &source, &catalog, true).ok().unwrap();
    assert!(kept.changes.is_empty());
    assert_eq!(kept.counts.already_current, 1);
    let removed = propose(Some(&b), Some(&b), &ownership, &empty(), &catalog, true).ok().unwrap();
    assert_eq!(removed.after.tags.len(), 1);
    assert!(!has_tag(&removed.after, owned));
    assert_eq!(removed.counts.tag_removals, 1);
    assert!(removed.counts.reconciles());
    assert!(removed.ownership.tags.is_empty());
}

#[test]
fn equal_native_values_and_links_never_acquire_ownership() {
    let (b, _, catalog, _, field) = fixture();
    let source = Source {
        tags: Tags::Complete(
            b.state.tags.iter().enumerate().map(|(i, t)| (alias(i as u8), *t)).collect(),
        ),
        fields: vec![(field, set(text("before"), true))],
    };
    let none = Ownership { tags: vec![], fields: vec![] };
    let p = propose(Some(&b), Some(&b), &none, &source, &catalog, true).ok().unwrap();
    assert!(p.ownership.tags.is_empty() && p.ownership.fields.is_empty());
    assert!(p.changes.is_empty());
    let clear = Source { tags: Tags::Missing, fields: vec![(field, FieldIntent::QualifiedClear)] };
    assert!(matches!(
        propose(Some(&b), Some(&b), &none, &clear, &catalog, true),
        Err(Hold::BaselineUnproven)
    ));
}

#[test]
fn local_edit_or_aba_holds_the_whole_person_even_if_source_matches() {
    let (b, o, c, _, field) = fixture();
    let mut current = b.clone();
    current.revision += 2;
    assert!(matches!(
        propose(Some(&b), Some(&current), &o, &empty(), &c, true),
        Err(Hold::LocalChange)
    ));
    current = b.clone();
    current.state.fields = vec![(field, text("local"))];
    let source = Source { tags: Tags::Complete(vec![]), fields: vec![(field, set(text("local"), true))] };
    assert!(matches!(
        propose(Some(&b), Some(&current), &o, &source, &c, true),
        Err(Hold::LocalChange)
    ));
    assert_eq!(b.state.tags.len(), 2, "no partial tag removals escaped a hold");
    current = b.clone();
    current.head = Some(id());
    assert!(matches!(
        propose(Some(&b), Some(&current), &o, &empty(), &c, true),
        Err(Hold::StaleHead)
    ));
}

#[test]
fn unknown_null_missing_and_empty_text_are_never_implicit_clears() {
    let (b, o, c, owned, field) = fixture();
    for intent in [FieldIntent::Missing, FieldIntent::UnknownNull] {
        let source = Source { tags: Tags::Complete(vec![(alias(1), owned)]), fields: vec![(field, intent)] };
        let p = propose(Some(&b), Some(&b), &o, &source, &c, true).ok().unwrap();
        assert_eq!(p.counts.field_clears, 0);
        assert_eq!(p.gaps.len(), 1);
        assert!(has_field(&p.after, field));
    }
    let empty_text = Source { tags: Tags::Missing, fields: vec![(field, set(text(""), false))] };
    assert!(matches!(
        propose(Some(&b), Some(&b), &o, &empty_text, &c, true),
        Err(Hold::UnsupportedSource)
    ));
    let clear = Source { tags: Tags::Null, fields: vec![(field, FieldIntent::QualifiedClear)] };
    let p = propose(Some(&b), Some(&b), &o, &clear, &c, true).ok().unwrap();
    assert!(has_tag(&p.after, owned));
    assert!(!has_field(&p.after, field));
    assert_eq!(p.counts.field_clears, 1);
    assert_eq!(p.counts.updates, 1);
    assert_eq!(p.counts.tag_removals, 0);
    let unknown = Source { tags: Tags::Missing, fields: vec![(field, FieldIntent::Missing)] };
    assert!(matches!(
        propose(Some(&b), Some(&b), &o, &unknown, &c, true),
        Err(Hold::SourceNotObserved)
    ));
}

#[test]
fn capacity_uses_final_set_and_applied_additions_get_positive_ownership() {
    let (mut b, mut o, mut c, owned, _) = fixture();
    c.tag_limit = 5;
    while b.state.tags.len() < c.tag_limit {
        b.state.tags.push(id());
    }
    c.live_tags = b.state.tags.clone();
    let added = id();
    c.live_tags.push(added);
    let source = Source { tags: Tags::Complete(vec![(alias(3), added)]), fields: vec![] };
    let p = propose(Some(&b), Some(&b), &o, &source, &c, true).ok().unwrap();
    assert_eq!(p.after.tags.len(), c.tag_limit);
    assert_eq!(p.counts.tag_removals, 1);
    assert!(p.ownership.tags.iter().any(|(t, support)| *t == added && support == &vec![alias(3)]));
    o.tags.retain(|(t, _)| *t != owned);
    assert!(matches!(
        propose(Some(&b), Some(&b), &o, &source, &c, true),
        Err(Hold::UnitTooLarge)
    ));
}

#[test]
fn conflicting_field_targets_and_moved_aliases_hold_without_partial_changes() {
    let (b, o, c, owned, field) = fixture();
    let duplicate = Source {
        tags: Tags::Complete(vec![]),
        fields: vec![(field, FieldIntent::QualifiedClear), (field, FieldIntent::Missing)],
    };
    assert!(matches!(
        propose(Some(&b), Some(&b), &o, &duplicate, &c, true),
        Err(Hold::SourceConflict)
    ));
    let local = *b.state.tags.iter().find(|t| **t != owned).unwrap();
    let conflicted = Source { tags: Tags::Complete(vec![(alias(1), owned), (alias(1), local)]), fields: vec![] };
    assert!(matches!(
        propose(Some(&b), Some(&b), &o, &conflicted, &c, true),
        Err(Hold::SourceConflict)
    ));
    let moved = Source { tags: Tags::Complete(vec![(alias(1), local)]), fields: vec![] };
    assert!(matches!(
        propose(Some(&b), Some(&b), &o, &moved, &c, true),
        Err(Hold::MappingRequired)
    ));
}

#[test]
fn missing_coverage_baseline_and_erased_person_cannot_be_reconstructed_from_current() {
    let (b, o, c, _, _) = fixture();
    assert!(matches!(
        propose(Some(&b), Some(&b), &o, &empty(), &c, false),
        Err(Hold::FirstCoverageRequired)
    ));
    assert!(matches!(propose(None, Some(&b), &o, &empty(), &c, true), Err(Hold::BaselineUnproven)));
    assert!(matches!(propose(Some(&b), None, &o, &empty(), &c, true), Err(Hold::TargetErased)));
    let mut invalid = b.clone();
    invalid.revision = 0;
    assert!(matches!(
        propose(Some(&invalid), Some(&invalid), &o, &empty(), &c, true),
        Err(Hold::BaselineUnproven)
    ));
    let mut foreign = b.clone();
    foreign.person = id();
    assert!(matches!(
        propose(Some(&b), Some(&foreign), &o, &empty(), &c, true),
        Err(Hold::IdentityMismatch)
    ));
}

#[test]
fn catalog_type_option_and_native_limits_are_rechecked_before_proposal() {
    let (b, o, mut c, _, field) = fixture();
    for (value, valid) in [(text(&"x".repeat(501)), false), (CustomFieldValue::Number("1".into()), true)] {
        let source = Source { tags: Tags::Missing, fields: vec![(field, set(value, valid))] };
        assert!(propose(Some(&b), Some(&b), &o, &source, &c, true).is_err());
    }
    let choice = id();
    c.live_fields.push((choice, Field { kind: FieldType::Choice, live_options: vec![] }));
    let source = Source {
        tags: Tags::Missing,
        fields: vec![(choice, set(CustomFieldValue::Choice(id()), true))],
    };
    assert!(matches!(
        propose(Some(&b), Some(&b), &o, &source, &c, true),
        Err(Hold::UnsupportedSource)
    ));
}

#[test]
fn added_links_and_set_values_are_owned_and_reported() {
    let (b, o, c, owned, field) = fixture();
    let fresh = id();
    let mut catalog = c.clone();
    catalog.live_tags.push(fresh);
    let source = Source {
        tags: Tags::Complete(vec![(alias(1), owned), (alias(7), fresh), (alias(8), fresh)]),
        fields: vec![(field, set(text("after"), true))],
    };
    let p = propose(Some(&b), Some(&b), &o, &source, &catalog, true).ok().unwrap();
    assert_eq!(p.changes.len(), 2);
    assert!(matches!(p.changes[0], Change::AddTag(t) if t == fresh));
    assert!(matches!(&p.changes[1], Change::SetField(f, CustomFieldValue::Text(s)) if *f == field && s == "after"));
    assert!(has_tag(&p.after, fresh) && has_tag(&p.after, owned));
    let support = &p.ownership.tags.iter().find(|(t, _)| *t == fresh).unwrap().1;
    assert_eq!(support, &vec![alias(7), alias(8)]);
    assert_eq!(p.counts.updates, 1);
    assert!(p.gaps.is_empty());
    let missing = Source { tags: Tags::Missing, fields: vec![(field, set(text("after"), true))] };
    let q = propose(Some(&b), Some(&b), &o, &missing, &catalog, true).ok().unwrap();
    assert!(matches!(q.gaps[0], Gap::MissingTags));
    assert_eq!(Alias::from_bytes(&[1; 31]), None);
}

#[test]
fn link_changes_are_listed_by_id() {
    let person = id();
    let (low, mid, high) = (10u128, 20u128, 30u128);
    let current = Snapshot { person, revision: 3, head: None, state: State { tags: vec![high, low], fields: vec![] } };
    let ownership = Ownership { tags: vec![(high, vec![alias(7)]), (low, vec![alias(8)])], fields: vec![] };
    let catalog = Catalog { live_tags: vec![low, mid, high, 40, 5], live_fields: vec![], tag_limit: 100 };
    let source = Source { tags: Tags::Complete(vec![(alias(1), 40), (alias(2), mid), (alias(3), 5)]), fields: vec![] };
    let p = propose(Some(&current), Some(&current), &ownership, &source, &catalog, true).ok().unwrap();
    let order: Vec<(bool, u128)> = p
        .changes
        .iter()
        .map(|c| match c {
            Change::RemoveTag(t) => (false, *t),
            Change::AddTag(t) => (true, *t),
            _ => panic!("only link changes"),
        })
        .collect();
    assert_eq!(order, vec![(false, low), (false, high), (true, 5), (true, mid), (true, 40)]);
}

#[test]
fn a_proposal_names_its_target_and_counts_the_changes_it_lists() {
    let (b, o, c, owned, field) = fixture();
    let source = Source {
        tags: Tags::Complete(vec![]),
        fields: vec![(field, FieldIntent::QualifiedClear)],
    };
    let p = propose(Some(&b), Some(&b), &o, &source, &c, true).ok().unwrap();
    assert_eq!((p.person, p.expected_revision, p.expected_head), (b.person, b.revision, b.head));
    let removals = p.changes.iter().filter(|x| matches!(x, Change::RemoveTag(_))).count() as u64;
    let clears = p.changes.iter().filter(|x| matches!(x, Change::ClearField(_))).count() as u64;
    assert_eq!((p.counts.tag_removals, p.counts.field_clears), (removals, clears));
    assert_eq!((removals, clears), (1, 1));
    assert!(p.changes.iter().any(|x| matches!(x, Change::RemoveTag(t) if *t == owned)));
    assert_eq!((p.counts.inserts, p.counts.held, p.counts.units), (0, 0, 1));
}

#[test]
fn added_tags_are_new_to_the_person_and_become_owned_by_the_addition() {
    let (b, o, mut c, owned, _) = fixture();
    let fresh = id();
    c.live_tags.push(fresh);
    let source = Source { tags: Tags::Complete(vec![(alias(1), owned), (alias(9), fresh)]), fields: vec![] };
    let p = propose(Some(&b), Some(&b), &o, &source, &c, true).ok().unwrap();
    assert!(p.changes.iter().any(|x| matches!(x, Change::AddTag(t) if *t == fresh)));
    assert!(!b.state.tags.contains(&fresh));
    assert!(p.ownership.tags.iter().any(|(t, _)| *t == fresh));
}

#[test]
fn owned_links_are_checked_in_ascending_id_order() {
    let (low, high, other) = (5u128, 9u128, 7u128);
    let b = Snapshot {
        person: 1,
        revision: 2,
        head: None,
        state: State { tags: vec![high, low], fields: vec![] },
    };
    // Stored higher id first: the lower link's hold must still come first.
    let o = Ownership { tags: vec![(high, vec![alias(1)]), (low, vec![alias(2)])], fields: vec![] };
    let c = Catalog { live_tags: vec![high, other], live_fields: vec![], tag_limit: 100 };
    let source = Source { tags: Tags::Complete(vec![(alias(1), other)]), fields: vec![] };
    assert!(matches!(propose(Some(&b), Some(&b), &o, &source, &c, true), Err(Hold::TargetUnavailable)));
    let live = Catalog { live_tags: vec![high, low, other], live_fields: vec![], tag_limit: 100 };
    assert!(matches!(propose(Some(&b), Some(&b), &o, &source, &live, true), Err(Hold::MappingRequired)));
}
