use crm_migration::core_change_reports::ReportPage;
use crm_migration::core_change_source::{
    category, compare, Category, ChangeFamily, Disposition, Evidence, Group, Inputs, Observation,
    StreamRow,
};
use crm_migration::error::MigrationError;
use crm_migration::snapshot_source::Stream;

fn observation(semantic: u8, cats: &[(Category, u8)], reasons: &[&str]) -> Observation {
    Observation {
        source_id: Some("1".to_string()),
        semantic: [semantic; 32],
        categories: cats.iter().map(|(c, d)| (*c, [*d; 32])).collect(),
        reasons: reasons.iter().map(|r| r.to_string()).collect(),
    }
}

fn evidence(stream: Stream, side: &str) -> Evidence {
    Evidence { snapshot_id: 1, capture_id: 2, ordinal: 0, side: side.to_string(), stream }
}

fn group() -> Group {
    Group { components: vec![], reasons: vec![], evidence: vec![] }
}

fn complete(streams: &[&str]) -> Option<Vec<StreamRow>> {
    Some(
        streams
            .iter()
            .map(|s| StreamRow { stream: s.to_string(), state: "completed".to_string() })
            .collect(),
    )
}

fn inputs() -> Inputs {
    Inputs {
        baseline_streams: complete(&["people", "notes", "note_detail"]),
        newer_streams: complete(&["people", "notes", "note_detail"]),
        source_scope: Some("consistent_identity".to_string()),
    }
}

fn reasons(v: &[String]) -> Vec<&str> {
    let mut r: Vec<&str> = v.iter().map(|s| s.as_str()).collect();
    r.sort();
    r
}

#[test]
fn categories_follow_the_family_rules_in_order() {
    assert_eq!(category(ChangeFamily::People, "emails"), Category::ContactInformation);
    assert_eq!(category(ChangeFamily::People, "assignedPondId"), Category::AssignmentStage);
    assert_eq!(category(ChangeFamily::People, "tags"), Category::EmbeddedTags);
    assert_eq!(category(ChangeFamily::People, "customBirthday"), Category::CustomFields);
    assert_eq!(category(ChangeFamily::People, "id"), Category::Identity);
    assert_eq!(category(ChangeFamily::People, "x"), Category::OtherProperties);
    assert_eq!(category(ChangeFamily::CustomFields, "id"), Category::CustomFields);
    assert_eq!(category(ChangeFamily::Notes, "isHtml"), Category::NoteContent);
    assert_eq!(category(ChangeFamily::Notes, "emails"), Category::OtherProperties);
    assert_eq!(category(ChangeFamily::Tasks, "completed"), Category::TaskStatus);
    assert_eq!(category(ChangeFamily::Tasks, "dueDateTime"), Category::TaskDueDate);
    assert_eq!(category(ChangeFamily::Users, "id"), Category::Identity);
    assert_eq!(category(ChangeFamily::Users, "custom"), Category::OtherProperties);
    assert_eq!(Category::TaskDueDate.as_str(), "task_due_date");
}

#[test]
fn equal_observations_compare_unchanged_without_reasons() {
    let mut g = group();
    let obs = observation(1, &[(Category::ContactInformation, 5)], &[]);
    g.add(0, Stream::People, &obs, evidence(Stream::People, "baseline"), false);
    g.add(1, Stream::People, &obs, evidence(Stream::People, "newer"), false);
    g.add(1, Stream::People, &obs, evidence(Stream::People, "newer"), true);
    assert_eq!(g.observations(0), 1);
    assert_eq!(g.observations(1), 2);
    assert_eq!(g.repeats(), 1);
    assert!(!g.conflicted());
    assert_eq!(g.evidence.len(), 3);
    let c = compare(9, ChangeFamily::People, Some("1"), &g, &inputs(), &vec![], &vec![]);
    assert_eq!(c.disposition, Disposition::Unchanged);
    assert!(c.reasons.is_empty());
    assert!(c.categories.is_empty());
    assert_eq!(c.components.len(), 1);
    assert_eq!(c.components[0].disposition, Disposition::Unchanged);
    assert_eq!(c.baseline_observations, 1);
    assert_eq!(c.newer_observations, 2);
}

#[test]
fn changed_categories_are_named_and_conflicts_unresolve() {
    let mut g = group();
    let before = observation(1, &[(Category::ContactInformation, 5), (Category::Identity, 6)], &[]);
    let after = observation(2, &[(Category::ContactInformation, 7), (Category::Identity, 6)], &[]);
    g.add(0, Stream::People, &before, evidence(Stream::People, "baseline"), false);
    g.add(1, Stream::People, &after, evidence(Stream::People, "newer"), false);
    let c = compare(9, ChangeFamily::People, Some("1"), &g, &inputs(), &vec![], &vec![]);
    assert_eq!(c.disposition, Disposition::Changed);
    assert_eq!(c.categories, vec![Category::ContactInformation]);
    g.add(1, Stream::People, &before, evidence(Stream::People, "newer"), false);
    assert!(g.conflicted());
    let c = compare(9, ChangeFamily::People, None, &g, &inputs(), &vec![], &vec![]);
    assert_eq!(c.disposition, Disposition::Unresolved);
    assert_eq!(c.source_id, None);
    assert_eq!(reasons(&c.reasons), vec!["conflicting_observations", "invalid_source_id"]);
}

#[test]
fn absence_and_first_observation_are_never_deletion_or_creation() {
    let mut g = group();
    let obs = observation(1, &[], &[]);
    g.add(0, Stream::People, &obs, evidence(Stream::People, "baseline"), false);
    let mut scope_unknown = inputs();
    scope_unknown.source_scope = None;
    let c = compare(9, ChangeFamily::People, Some("1"), &g, &scope_unknown, &vec![], &vec![]);
    assert_eq!(c.disposition, Disposition::NotSeenAgain);
    assert_eq!(
        reasons(&c.reasons),
        vec!["absence_is_not_deletion", "effective_access_not_proven", "source_scope_changed_or_unknown"]
    );
    let c = compare(9, ChangeFamily::People, Some("1"), &g, &inputs(), &vec![], &vec!["people".to_string()]);
    assert_eq!(c.disposition, Disposition::Unresolved);
    assert_eq!(reasons(&c.reasons), vec!["effective_access_not_proven", "incomplete_enumeration"]);
    let mut n = group();
    n.add(1, Stream::People, &obs, evidence(Stream::People, "newer"), false);
    let c = compare(9, ChangeFamily::People, Some("1"), &n, &inputs(), &vec![], &vec![]);
    assert_eq!(c.disposition, Disposition::NewlyObserved);
    assert_eq!(reasons(&c.reasons), vec!["effective_access_not_proven", "first_observation_is_not_creation"]);
}

#[test]
fn notes_need_list_and_detail_on_each_observed_side() {
    let mut g = group();
    let obs = observation(1, &[], &["note_content_inaccessible"]);
    g.add(0, Stream::Notes, &obs, evidence(Stream::Notes, "baseline"), false);
    g.add(1, Stream::Notes, &obs, evidence(Stream::Notes, "newer"), false);
    let c = compare(9, ChangeFamily::Notes, Some("1"), &g, &inputs(), &vec![], &vec![]);
    assert_eq!(c.disposition, Disposition::Unresolved);
    assert_eq!(reasons(&c.reasons), vec!["missing_note_component", "note_content_inaccessible"]);
}

#[test]
fn report_pages_accept_only_bounded_known_filters() {
    let page = ReportPage { parent_import_id: None, cursor: None, limit: None, family: None, disposition: None };
    assert_eq!(page.limit(50), Ok(50));
    let small = ReportPage { limit: Some(10), family: Some("tasks".into()), disposition: Some("changed".into()), ..page };
    assert_eq!(small.limit(50), Ok(10));
    for bad in [
        ReportPage { limit: Some(0), ..ReportPage { parent_import_id: None, cursor: None, limit: None, family: None, disposition: None } },
        ReportPage { limit: Some(51), parent_import_id: None, cursor: None, family: None, disposition: None },
        ReportPage { cursor: Some("x".repeat(4097)), parent_import_id: None, limit: None, family: None, disposition: None },
        ReportPage { family: Some("deals".into()), parent_import_id: None, cursor: None, limit: None, disposition: None },
        ReportPage { disposition: Some("deleted".into()), parent_import_id: None, cursor: None, limit: None, family: None },
    ] {
        assert_eq!(bad.limit(50), Err(MigrationError::InvalidInput));
    }
    let edge = ReportPage { cursor: Some("x".repeat(4096)), parent_import_id: None, limit: None, family: None, disposition: None };
    assert_eq!(edge.limit(50), Ok(50));
}
