use crm_migration::coverage_inventory::{
    descriptor, inventory, Blocker, CoverageDescriptor, CoverageFamily, CoveragePath,
    DestinationSurface, SourceEvidence,
};

fn find(family: CoverageFamily) -> CoverageDescriptor {
    inventory()
        .into_iter()
        .find(|d| d.family == family)
        .expect("every asserted coverage family is inventoried")
}

#[test]
fn inventory_is_unique_and_has_no_false_ready_surface() {
    let all = inventory();
    for (i, a) in all.iter().enumerate() {
        for b in &all[i + 1..] {
            assert_ne!(a.family, b.family);
        }
    }
    assert!(all.iter().all(|d| {
        d.path != CoveragePath::Implemented
            || d.blocker_codes.iter().any(|code| code.as_str() == "migration_review_only")
    }));
}

#[test]
fn embedded_tags_and_standalone_catalog_are_not_conflated() {
    let embedded = find(CoverageFamily::EmbeddedPersonTags);
    assert_eq!(embedded.path, CoveragePath::Implemented);
    assert_eq!(embedded.source_evidence, SourceEvidence::EmbeddedPersonRecord);
    assert!(embedded.blocker_codes.iter().any(|c| c.as_str() == "embedded_person_tags_only"));

    let catalog = find(CoverageFamily::StandaloneTagCatalog);
    assert_eq!(catalog.path, CoveragePath::UnqualifiedSource);
    assert_eq!(catalog.source_evidence, SourceEvidence::UnqualifiedCatalog);
    assert_eq!(catalog.destination_surface, DestinationSurface::Unavailable);
    assert!(catalog
        .blocker_codes
        .iter()
        .any(|c| c.as_str() == "standalone_tag_catalog_unqualified"));
}

#[test]
fn unsupported_families_remain_explicit_and_history_stays_metadata_only() {
    for family in [
        CoverageFamily::Appointments,
        CoverageFamily::Deals,
        CoverageFamily::Emails,
        CoverageFamily::Recordings,
        CoverageFamily::ExternalFiles,
        CoverageFamily::AutomationSettings,
    ] {
        assert_eq!(find(family).path, CoveragePath::NotCaptured);
    }
    for family in [CoverageFamily::HistoricalEvents, CoverageFamily::Calls, CoverageFamily::Texts] {
        let history = find(family);
        assert_eq!(history.path, CoveragePath::MetadataOnly);
        assert_eq!(history.destination_surface, DestinationSurface::MetadataOnly);
    }
    assert_eq!(find(CoverageFamily::SourceDeletionSemantics).path, CoveragePath::Unknown);
    assert_eq!(find(CoverageFamily::WorkspaceActivation).path, CoveragePath::DeferredPrerequisite);
}

#[test]
fn wire_vocabulary_is_stable_and_safe() {
    let catalog = descriptor(CoverageFamily::StandaloneTagCatalog);
    assert_eq!(catalog.family, CoverageFamily::StandaloneTagCatalog);
    assert_eq!(catalog.path, CoveragePath::UnqualifiedSource);
    assert_eq!(catalog.source_evidence, SourceEvidence::UnqualifiedCatalog);
    assert_eq!(catalog.destination_surface, DestinationSurface::Unavailable);
    assert_eq!(catalog.blocker_codes, vec![Blocker::StandaloneTagCatalogUnqualified]);
    assert_eq!(catalog.blocker_codes[0].as_str(), "standalone_tag_catalog_unqualified");
}

#[test]
fn descriptor_matches_inventory_for_every_family() {
    let all = inventory();
    assert_eq!(all.len(), 22);
    for d in &all {
        assert_eq!(&descriptor(d.family), d);
    }
}
