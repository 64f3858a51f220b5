use crm_migration::error::MigrationError;
use crm_migration::family_refresh::item_queries::{window, ItemKind, ItemPage, Position};
use crm_migration::family_refresh::mapping_queries::{
    mapping_window, Kind, MappingPage, MappingPosition, TargetPage,
};
use crm_migration::family_refresh::model::Family;

fn items(limit: Option<u16>) -> ItemPage {
    ItemPage { family: Family::Metadata, plan_id: 1, cohort_id: None, outcome: None, limit, cursor: None }
}

#[test]
fn pages_hold_between_one_and_fifty_items() {
    assert_eq!(items(None).page_limit(), Ok(25));
    assert_eq!(items(Some(50)).page_limit(), Ok(50));
    assert_eq!(items(Some(0)).page_limit(), Err(MigrationError::InvalidInput));
    assert_eq!(items(Some(51)).page_limit(), Err(MigrationError::InvalidInput));
    assert_eq!(TargetPage { limit: Some(7), cursor: None }.page_limit(), Ok(7));
    assert_eq!(ItemKind::Metadata.as_str(), "metadata");
}

#[test]
fn a_cursor_window_stays_inside_the_plan() {
    assert_eq!(window(None, 12), Ok(Position { after: 0, upper: 12 }));
    assert_eq!(window(Some(Position { after: 5, upper: 10 }), 12), Ok(Position { after: 5, upper: 10 }));
    assert_eq!(window(Some(Position { after: 5, upper: 13 }), 12), Err(MigrationError::InvalidInput));
    assert_eq!(window(Some(Position { after: -1, upper: 3 }), 12), Err(MigrationError::InvalidInput));
    assert_eq!(window(Some(Position { after: 6, upper: 5 }), 12), Err(MigrationError::InvalidInput));
}

#[test]
fn mapping_pages_filter_only_by_kinds_of_their_family() {
    let page = |family, kind| MappingPage { family, plan_id: 1, kind, disposition: None, limit: None, cursor: None };
    assert_eq!(page(Family::Metadata, Some(Kind::Tag)).page_limit(), Ok(25));
    assert_eq!(page(Family::Activity, Some(Kind::Tag)).page_limit(), Err(MigrationError::InvalidInput));
    assert_eq!(page(Family::Activity, Some(Kind::Timezone)).page_limit(), Ok(25));
    assert_eq!(page(Family::Activity, None).page_limit(), Ok(25));
    let ok = MappingPosition { after: Some(3), upper: Some(9) };
    assert_eq!(mapping_window(ok), Ok(ok));
    assert_eq!(mapping_window(MappingPosition { after: None, upper: None }).is_ok(), true);
    assert_eq!(
        mapping_window(MappingPosition { after: Some(3), upper: None }),
        Err(MigrationError::InvalidInput)
    );
    assert_eq!(
        mapping_window(MappingPosition { after: Some(10), upper: Some(9) }),
        Err(MigrationError::InvalidInput)
    );
}
