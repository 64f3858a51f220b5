//! Static, source-qualified migration coverage boundaries.
//!
//! This is deliberately not an account inventory or a reconciliation result.
//! Dynamic readers must keep captured counts, holds, result heads and source
//! completeness separate from these fixed product boundaries.
use vstd::prelude::*;

verus! {

/// A stable migration coverage surface. These are report vocabulary, not source
/// endpoint names or a promise that every account contains the family.
#[derive(Debug, Clone, Copy, PartialEq, Eq, Structural)]
pub enum CoverageFamily {
    PeopleContacts,
    Stages,
    SourceUsers,
    EmbeddedPersonTags,
    StandaloneTagCatalog,
    CustomFields,
    Notes,
    Tasks,
    HistoricalEvents,
    Calls,
    Texts,
    Addresses,
    Relationships,
    Appointments,
    Deals,
    Emails,
    Recordings,
    ExternalFiles,
    AutomationSettings,
    SourceDeletionSemantics,
    WorkspaceActivation,
    PrivacyErasure,
}

/// The best current product path for a family.
///
/// `Implemented` means a typed retained-evidence import/refresh path exists;
/// it never means a source account is completely captured, qualified or ready
/// to activate. `MetadataOnly` similarly never permits content/body claims.
#[derive(Debug, Clone, Copy, PartialEq, Eq, Structural)]
pub enum CoveragePath {
    Implemented,
    MetadataOnly,
    PreservedUnrepresented,
    UnqualifiedSource,
    NotCaptured,
    Unknown,
    DeferredPrerequisite,
}

/// The static source-evidence boundary that supports the descriptor.
#[derive(Debug, Clone, Copy, PartialEq, Eq, Structural)]
pub enum SourceEvidence {
    RetainedCoreProfile,
    RetainedHistoryProfile,
    EmbeddedPersonRecord,
    UnqualifiedCatalog,
    NotCaptured,
    Unknown,
    DeferredPolicy,
}

/// The current destination/read-model surface; this is distinct from whether a
/// particular retained item was applied, held or excluded.
#[derive(Debug, Clone, Copy, PartialEq, Eq, Structural)]
pub enum DestinationSurface {
    TypedImport,
    MetadataOnly,
    PreservedUnrepresented,
    Unavailable,
    Deferred,
}

/// Stable, safe report vocabulary of coverage blockers. A code never holds
/// source content, credentials or account-specific state.
#[derive(Debug, Clone, Copy, PartialEq, Eq, Structural)]
pub enum Blocker {
    SourceScopeNotLiveQualified,
    SourceDeletionSemanticsUnknown,
    MigrationReviewOnly,
    SourceUsersDoNotCreateIdentities,
    EmbeddedPersonTagsOnly,
    StandaloneTagCatalogUnqualified,
    UnsupportedValuesOrMappingHolds,
    RestrictedNoteDetailPossible,
    UnsupportedRepliesOrAttachmentsPossible,
    UnsupportedTaskSemanticsPossible,
    ExternalFactsOnly,
    HistoryContentNotImported,
    ApiRestrictedRecordsUnknown,
    CallApiRestrictedRecordsUnknown,
    CallContentAndMediaNotImported,
    TextApiRestrictedRecordsUnknown,
    TextContentNotImported,
    DestinationModelMissing,
    RetainedOnlyWhenReturned,
    SourceProfileNotCaptured,
    EmailBulkStorageUnresolved,
    RecordingPolicyUnresolved,
    ActivationNotImplemented,
    O012Open,
    O013Open,
}

pub open spec fn blocker_code(blocker: Blocker) -> Seq<char> {
    match blocker {
        Blocker::SourceScopeNotLiveQualified => "source_scope_not_live_qualified"@,
        Blocker::SourceDeletionSemanticsUnknown => "source_deletion_semantics_unknown"@,
        Blocker::MigrationReviewOnly => "migration_review_only"@,
        Blocker::SourceUsersDoNotCreateIdentities => "source_users_do_not_create_identities"@,
        Blocker::EmbeddedPersonTagsOnly => "embedded_person_tags_only"@,
        Blocker::StandaloneTagCatalogUnqualified => "standalone_tag_catalog_unqualified"@,
        Blocker::UnsupportedValuesOrMappingHolds => "unsupported_values_or_mapping_holds"@,
        Blocker::RestrictedNoteDetailPossible => "restricted_note_detail_possible"@,
        Blocker::UnsupportedRepliesOrAttachmentsPossible => "unsupported_replies_or_attachments_possible"@,
        Blocker::UnsupportedTaskSemanticsPossible => "unsupported_task_semantics_possible"@,
        Blocker::ExternalFactsOnly => "external_facts_only"@,
        Blocker::HistoryContentNotImported => "history_content_not_imported"@,
        Blocker::ApiRestrictedRecordsUnknown => "api_restricted_records_unknown"@,
        Blocker::CallApiRestrictedRecordsUnknown => "call_api_restricted_records_unknown"@,
        Blocker::CallContentAndMediaNotImported => "call_content_and_media_not_imported"@,
        Blocker::TextApiRestrictedRecordsUnknown => "text_api_restricted_records_unknown"@,
        Blocker::TextContentNotImported => "text_content_not_imported"@,
        Blocker::DestinationModelMissing => "destination_model_missing"@,
        Blocker::RetainedOnlyWhenReturned => "retained_only_when_returned"@,
        Blocker::SourceProfileNotCaptured => "source_profile_not_captured"@,
        Blocker::EmailBulkStorageUnresolved => "email_bulk_storage_unresolved"@,
        Blocker::RecordingPolicyUnresolved => "recording_policy_unresolved"@,
        Blocker::ActivationNotImplemented => "activation_not_implemented"@,
        Blocker::O012Open => "o_012_open"@,
        Blocker::O013Open => "o_013_open"@,
    }
}

impl Blocker {
    /// The wire spelling of the blocker.
    pub fn as_str(self) -> (code: &'static str)
        ensures
            code@ == blocker_code(self),
    {
        match self {
            Blocker::SourceScopeNotLiveQualified => "source_scope_not_live_qualified",
            Blocker::SourceDeletionSemanticsUnknown => "source_deletion_semantics_unknown",
            Blocker::MigrationReviewOnly => "migration_review_only",
            Blocker::SourceUsersDoNotCreateIdentities => "source_users_do_not_create_identities",
            Blocker::EmbeddedPersonTagsOnly => "embedded_person_tags_only",
            Blocker::StandaloneTagCatalogUnqualified => "standalone_tag_catalog_unqualified",
            Blocker::UnsupportedValuesOrMappingHolds => "unsupported_values_or_mapping_holds",
            Blocker::RestrictedNoteDetailPossible => "restricted_note_detail_possible",
            Blocker::UnsupportedRepliesOrAttachmentsPossible => "unsupported_replies_or_attachments_possible",
            Blocker::UnsupportedTaskSemanticsPossible => "unsupported_task_semantics_possible",
            Blocker::ExternalFactsOnly => "external_facts_only",
            Blocker::HistoryContentNotImported => "history_content_not_imported",
            Blocker::ApiRestrictedRecordsUnknown => "api_restricted_records_unknown",
            Blocker::CallApiRestrictedRecordsUnknown => "call_api_restricted_records_unknown",
            Blocker::CallContentAndMediaNotImported => "call_content_and_media_not_imported",
            Blocker::TextApiRestrictedRecordsUnknown => "text_api_restricted_records_unknown",
            Blocker::TextContentNotImported => "text_content_not_imported",
            Blocker::DestinationModelMissing => "destination_model_missing",
            Blocker::RetainedOnlyWhenReturned => "retained_only_when_returned",
            Blocker::SourceProfileNotCaptured => "source_profile_not_captured",
            Blocker::EmailBulkStorageUnresolved => "email_bulk_storage_unresolved",
            Blocker::RecordingPolicyUnresolved => "recording_policy_unresolved",
            Blocker::ActivationNotImplemented => "activation_not_implemented",
            Blocker::O012Open => "o_012_open",
            Blocker::O013Open => "o_013_open",
        }
    }
}

/// An immutable descriptor consumed by migration review/reconciliation readers.
#[derive(Debug, Clone, PartialEq, Eq)]
pub struct CoverageDescriptor {
    pub family: CoverageFamily,
    pub path: CoveragePath,
    pub source_evidence: SourceEvidence,
    pub destination_surface: DestinationSurface,
    pub blocker_codes: Vec<Blocker>,
}

/// Stable report order of the taxonomy.
pub open spec fn family_at(i: int) -> CoverageFamily {
    if i == 0 {
        CoverageFamily::PeopleContacts
    } else if i == 1 {
        CoverageFamily::Stages
    } else if i == 2 {
        CoverageFamily::SourceUsers
    } else if i == 3 {
        CoverageFamily::EmbeddedPersonTags
    } else if i == 4 {
        CoverageFamily::StandaloneTagCatalog
    } else if i == 5 {
        CoverageFamily::CustomFields
    } else if i == 6 {
        CoverageFamily::Notes
    } else if i == 7 {
        CoverageFamily::Tasks
    } else if i == 8 {
        CoverageFamily::HistoricalEvents
    } else if i == 9 {
        CoverageFamily::Calls
    } else if i == 10 {
        CoverageFamily::Texts
    } else if i == 11 {
        CoverageFamily::Addresses
    } else if i == 12 {
        CoverageFamily::Relationships
    } else if i == 13 {
        CoverageFamily::Appointments
    } else if i == 14 {
        CoverageFamily::Deals
    } else if i == 15 {
        CoverageFamily::Emails
    } else if i == 16 {
        CoverageFamily::Recordings
    } else if i == 17 {
        CoverageFamily::ExternalFiles
    } else if i == 18 {
        CoverageFamily::AutomationSettings
    } else if i == 19 {
        CoverageFamily::SourceDeletionSemantics
    } else if i == 20 {
        CoverageFamily::WorkspaceActivation
    } else {
        CoverageFamily::PrivacyErasure
    }
}

pub open spec fn inventory_len() -> nat {
    22
}

pub open spec fn path_of(family: CoverageFamily) -> CoveragePath {
    match family {
        CoverageFamily::PeopleContacts => CoveragePath::Implemented,
        CoverageFamily::Stages => CoveragePath::Implemented,
        CoverageFamily::SourceUsers => CoveragePath::Implemented,
        CoverageFamily::EmbeddedPersonTags => CoveragePath::Implemented,
        CoverageFamily::StandaloneTagCatalog => CoveragePath::UnqualifiedSource,
        CoverageFamily::CustomFields => CoveragePath::Implemented,
        CoverageFamily::Notes => CoveragePath::Implemented,
        CoverageFamily::Tasks => CoveragePath::Implemented,
        CoverageFamily::HistoricalEvents => CoveragePath::MetadataOnly,
        CoverageFamily::Calls => CoveragePath::MetadataOnly,
        CoverageFamily::Texts => CoveragePath::MetadataOnly,
        CoverageFamily::Addresses => CoveragePath::PreservedUnrepresented,
        CoverageFamily::Relationships => CoveragePath::PreservedUnrepresented,
        CoverageFamily::Appointments => CoveragePath::NotCaptured,
        CoverageFamily::Deals => CoveragePath::NotCaptured,
        CoverageFamily::Emails => CoveragePath::NotCaptured,
        CoverageFamily::Recordings => CoveragePath::NotCaptured,
        CoverageFamily::ExternalFiles => CoveragePath::NotCaptured,
        CoverageFamily::AutomationSettings => CoveragePath::NotCaptured,
        CoverageFamily::SourceDeletionSemantics => CoveragePath::Unknown,
        CoverageFamily::WorkspaceActivation => CoveragePath::DeferredPrerequisite,
        CoverageFamily::PrivacyErasure => CoveragePath::DeferredPrerequisite,
    }
}

pub open spec fn evidence_of(family: CoverageFamily) -> SourceEvidence {
    match family {
        CoverageFamily::PeopleContacts => SourceEvidence::RetainedCoreProfile,
        CoverageFamily::Stages => SourceEvidence::RetainedCoreProfile,
        CoverageFamily::SourceUsers => SourceEvidence::RetainedCoreProfile,
        CoverageFamily::EmbeddedPersonTags => SourceEvidence::EmbeddedPersonRecord,
        CoverageFamily::StandaloneTagCatalog => SourceEvidence::UnqualifiedCatalog,
        CoverageFamily::CustomFields => SourceEvidence::RetainedCoreProfile,
        CoverageFamily::Notes => SourceEvidence::RetainedCoreProfile,
        CoverageFamily::Tasks => SourceEvidence::RetainedCoreProfile,
        CoverageFamily::HistoricalEvents => SourceEvidence::RetainedHistoryProfile,
        CoverageFamily::Calls => SourceEvidence::RetainedHistoryProfile,
        CoverageFamily::Texts => SourceEvidence::RetainedHistoryProfile,
        CoverageFamily::Addresses => SourceEvidence::EmbeddedPersonRecord,
        CoverageFamily::Relationships => SourceEvidence::EmbeddedPersonRecord,
        CoverageFamily::Appointments => SourceEvidence::NotCaptured,
        CoverageFamily::Deals => SourceEvidence::NotCaptured,
        CoverageFamily::Emails => SourceEvidence::NotCaptured,
        CoverageFamily::Recordings => SourceEvidence::NotCaptured,
        CoverageFamily::ExternalFiles => SourceEvidence::NotCaptured,
        CoverageFamily::AutomationSettings => SourceEvidence::NotCaptured,
        CoverageFamily::SourceDeletionSemantics => SourceEvidence::Unknown,
        CoverageFamily::WorkspaceActivation => SourceEvidence::DeferredPolicy,
        CoverageFamily::PrivacyErasure => SourceEvidence::DeferredPolicy,
    }
}

pub open spec fn surface_of(family: CoverageFamily) -> DestinationSurface {
    match family {
        CoverageFamily::PeopleContacts => DestinationSurface::TypedImport,
        CoverageFamily::Stages => DestinationSurface::TypedImport,
        CoverageFamily::SourceUsers => DestinationSurface::TypedImport,
        CoverageFamily::EmbeddedPersonTags => DestinationSurface::TypedImport,
        CoverageFamily::StandaloneTagCatalog => DestinationSurface::Unavailable,
        CoverageFamily::CustomFields => DestinationSurface::TypedImport,
        CoverageFamily::Notes => DestinationSurface::TypedImport,
        CoverageFamily::Tasks => DestinationSurface::TypedImport,
        CoverageFamily::HistoricalEvents => DestinationSurface::MetadataOnly,
        CoverageFamily::Calls => DestinationSurface::MetadataOnly,
        CoverageFamily::Texts => DestinationSurface::MetadataOnly,
        CoverageFamily::Addresses => DestinationSurface::PreservedUnrepresented,
        CoverageFamily::Relationships => DestinationSurface::PreservedUnrepresented,
        CoverageFamily::Appointments => DestinationSurface::Unavailable,
        CoverageFamily::Deals => DestinationSurface::Unavailable,
        CoverageFamily::Emails => DestinationSurface::Unavailable,
        CoverageFamily::Recordings => DestinationSurface::Unavailable,
        CoverageFamily::ExternalFiles => DestinationSurface::Unavailable,
        CoverageFamily::AutomationSettings => DestinationSurface::Unavailable,
        CoverageFamily::SourceDeletionSemantics => DestinationSurface::Unavailable,
        CoverageFamily::WorkspaceActivation => DestinationSurface::Deferred,
        CoverageFamily::PrivacyErasure => DestinationSurface::Deferred,
    }
}

pub open spec fn blockers_of(family: CoverageFamily) -> Seq<Blocker> {
    match family {
        CoverageFamily::PeopleContacts => seq![Blocker::SourceScopeNotLiveQualified, Blocker::SourceDeletionSemanticsUnknown, Blocker::MigrationReviewOnly],
        CoverageFamily::Stages => seq![Blocker::SourceScopeNotLiveQualified, Blocker::MigrationReviewOnly],
        CoverageFamily::SourceUsers => seq![Blocker::SourceUsersDoNotCreateIdentities, Blocker::SourceScopeNotLiveQualified, Blocker::MigrationReviewOnly],
        CoverageFamily::EmbeddedPersonTags => seq![Blocker::EmbeddedPersonTagsOnly, Blocker::SourceScopeNotLiveQualified, Blocker::MigrationReviewOnly],
        CoverageFamily::StandaloneTagCatalog => seq![Blocker::StandaloneTagCatalogUnqualified],
        CoverageFamily::CustomFields => seq![Blocker::SourceScopeNotLiveQualified, Blocker::UnsupportedValuesOrMappingHolds, Blocker::MigrationReviewOnly],
        CoverageFamily::Notes => seq![Blocker::RestrictedNoteDetailPossible, Blocker::UnsupportedRepliesOrAttachmentsPossible, Blocker::MigrationReviewOnly],
        CoverageFamily::Tasks => seq![Blocker::UnsupportedTaskSemanticsPossible, Blocker::MigrationReviewOnly],
        CoverageFamily::HistoricalEvents => seq![Blocker::ExternalFactsOnly, Blocker::HistoryContentNotImported, Blocker::ApiRestrictedRecordsUnknown, Blocker::MigrationReviewOnly],
        CoverageFamily::Calls => seq![Blocker::CallApiRestrictedRecordsUnknown, Blocker::CallContentAndMediaNotImported, Blocker::MigrationReviewOnly],
        CoverageFamily::Texts => seq![Blocker::TextApiRestrictedRecordsUnknown, Blocker::TextContentNotImported, Blocker::MigrationReviewOnly],
        CoverageFamily::Addresses => seq![Blocker::DestinationModelMissing, Blocker::RetainedOnlyWhenReturned],
        CoverageFamily::Relationships => seq![Blocker::DestinationModelMissing, Blocker::RetainedOnlyWhenReturned],
        CoverageFamily::Appointments => seq![Blocker::SourceProfileNotCaptured, Blocker::DestinationModelMissing],
        CoverageFamily::Deals => seq![Blocker::SourceProfileNotCaptured, Blocker::DestinationModelMissing],
        CoverageFamily::Emails => seq![Blocker::SourceProfileNotCaptured, Blocker::EmailBulkStorageUnresolved],
        CoverageFamily::Recordings => seq![Blocker::SourceProfileNotCaptured, Blocker::RecordingPolicyUnresolved],
        CoverageFamily::ExternalFiles => seq![Blocker::SourceProfileNotCaptured, Blocker::DestinationModelMissing],
        CoverageFamily::AutomationSettings => seq![Blocker::SourceProfileNotCaptured, Blocker::DestinationModelMissing],
        CoverageFamily::SourceDeletionSemantics => seq![Blocker::SourceDeletionSemanticsUnknown],
        CoverageFamily::WorkspaceActivation => seq![Blocker::ActivationNotImplemented, Blocker::MigrationReviewOnly],
        CoverageFamily::PrivacyErasure => seq![Blocker::O012Open, Blocker::O013Open],
    }
}

/// The descriptor of one family.
pub open spec fn describes(d: CoverageDescriptor, family: CoverageFamily) -> bool {
    &&& d.family == family
    &&& d.path == path_of(family)
    &&& d.source_evidence == evidence_of(family)
    &&& d.destination_surface == surface_of(family)
    &&& d.blocker_codes@ =~= blockers_of(family)
}

/// The fixed descriptor of a coverage family.
pub fn descriptor(family: CoverageFamily) -> (d: CoverageDescriptor)
    ensures
        describes(d, family),
{
    match family {
        CoverageFamily::PeopleContacts => CoverageDescriptor {
            family,
            path: CoveragePath::Implemented,
            source_evidence: SourceEvidence::RetainedCoreProfile,
            destination_surface: DestinationSurface::TypedImport,
            blocker_codes: {
                let mut v = Vec::new();
                v.push(Blocker::SourceScopeNotLiveQualified);
                v.push(Blocker::SourceDeletionSemanticsUnknown);
                v.push(Blocker::MigrationReviewOnly);
                v
            },
        },
        CoverageFamily::Stages => CoverageDescriptor {
            family,
            path: CoveragePath::Implemented,
            source_evidence: SourceEvidence::RetainedCoreProfile,
            destination_surface: DestinationSurface::TypedImport,
            blocker_codes: {
                let mut v = Vec::new();
                v.push(Blocker::SourceScopeNotLiveQualified);
                v.push(Blocker::MigrationReviewOnly);
                v
            },
        },
        CoverageFamily::SourceUsers => CoverageDescriptor {
            family,
            path: CoveragePath::Implemented,
            source_evidence: SourceEvidence::RetainedCoreProfile,
            destination_surface: DestinationSurface::TypedImport,
            blocker_codes: {
                let mut v = Vec::new();
                v.push(Blocker::SourceUsersDoNotCreateIdentities);
                v.push(Blocker::SourceScopeNotLiveQualified);
                v.push(Blocker::MigrationReviewOnly);
                v
            },
        },
        CoverageFamily::EmbeddedPersonTags => CoverageDescriptor {
            family,
            path: CoveragePath::Implemented,
            source_evidence: SourceEvidence::EmbeddedPersonRecord,
            destination_surface: DestinationSurface::TypedImport,
            blocker_codes: {
                let mut v = Vec::new();
                v.push(Blocker::EmbeddedPersonTagsOnly);
                v.push(Blocker::SourceScopeNotLiveQualified);
                v.push(Blocker::MigrationReviewOnly);
                v
            },
        },
        CoverageFamily::StandaloneTagCatalog => CoverageDescriptor {
            family,
            path: CoveragePath::UnqualifiedSource,
            source_evidence: SourceEvidence::UnqualifiedCatalog,
            destination_surface: DestinationSurface::Unavailable,
            blocker_codes: {
                let mut v = Vec::new();
                v.push(Blocker::StandaloneTagCatalogUnqualified);
                v
            },
        },
        CoverageFamily::CustomFields => CoverageDescriptor {
            family,
            path: CoveragePath::Implemented,
            source_evidence: SourceEvidence::RetainedCoreProfile,
            destination_surface: DestinationSurface::TypedImport,
            blocker_codes: {
                let mut v = Vec::new();
                v.push(Blocker::SourceScopeNotLiveQualified);
                v.push(Blocker::UnsupportedValuesOrMappingHolds);
                v.push(Blocker::MigrationReviewOnly);
                v
            },
        },
        CoverageFamily::Notes => CoverageDescriptor {
            family,
            path: CoveragePath::Implemented,
            source_evidence: SourceEvidence::RetainedCoreProfile,
            destination_surface: DestinationSurface::TypedImport,
            blocker_codes: {
                let mut v = Vec::new();
                v.push(Blocker::RestrictedNoteDetailPossible);
                v.push(Blocker::UnsupportedRepliesOrAttachmentsPossible);
                v.push(Blocker::MigrationReviewOnly);
                v
            },
        },
        CoverageFamily::Tasks => CoverageDescriptor {
            family,
            path: CoveragePath::Implemented,
            source_evidence: SourceEvidence::RetainedCoreProfile,
            destination_surface: DestinationSurface::TypedImport,
            blocker_codes: {
                let mut v = Vec::new();
                v.push(Blocker::UnsupportedTaskSemanticsPossible);
                v.push(Blocker::MigrationReviewOnly);
                v
            },
        },
        CoverageFamily::HistoricalEvents => CoverageDescriptor {
            family,
            path: CoveragePath::MetadataOnly,
            source_evidence: SourceEvidence::RetainedHistoryProfile,
            destination_surface: DestinationSurface::MetadataOnly,
            blocker_codes: {
                let mut v = Vec::new();
                v.push(Blocker::ExternalFactsOnly);
                v.push(Blocker::HistoryContentNotImported);
                v.push(Blocker::ApiRestrictedRecordsUnknown);
                v.push(Blocker::MigrationReviewOnly);
                v
            },
        },
        CoverageFamily::Calls => CoverageDescriptor {
            family,
            path: CoveragePath::MetadataOnly,
            source_evidence: SourceEvidence::RetainedHistoryProfile,
            destination_surface: DestinationSurface::MetadataOnly,
            blocker_codes: {
                let mut v = Vec::new();
                v.push(Blocker::CallApiRestrictedRecordsUnknown);
                v.push(Blocker::CallContentAndMediaNotImported);
                v.push(Blocker::MigrationReviewOnly);
                v
            },
        },
        CoverageFamily::Texts => CoverageDescriptor {
            family,
            path: CoveragePath::MetadataOnly,
            source_evidence: SourceEvidence::RetainedHistoryProfile,
            destination_surface: DestinationSurface::MetadataOnly,
            blocker_codes: {
                let mut v = Vec::new();
                v.push(Blocker::TextApiRestrictedRecordsUnknown);
                v.push(Blocker::TextContentNotImported);
                v.push(Blocker::MigrationReviewOnly);
                v
            },
        },
        CoverageFamily::Addresses => CoverageDescriptor {
            family,
            path: CoveragePath::PreservedUnrepresented,
            source_evidence: SourceEvidence::EmbeddedPersonRecord,
            destination_surface: DestinationSurface::PreservedUnrepresented,
            blocker_codes: {
                let mut v = Vec::new();
                v.push(Blocker::DestinationModelMissing);
                v.push(Blocker::RetainedOnlyWhenReturned);
                v
            },
        },
        CoverageFamily::Relationships => CoverageDescriptor {
            family,
            path: CoveragePath::PreservedUnrepresented,
            source_evidence: SourceEvidence::EmbeddedPersonRecord,
            destination_surface: DestinationSurface::PreservedUnrepresented,
            blocker_codes: {
                let mut v = Vec::new();
                v.push(Blocker::DestinationModelMissing);
                v.push(Blocker::RetainedOnlyWhenReturned);
                v
            },
        },
        CoverageFamily::Appointments => CoverageDescriptor {
            family,
            path: CoveragePath::NotCaptured,
            source_evidence: SourceEvidence::NotCaptured,
            destination_surface: DestinationSurface::Unavailable,
            blocker_codes: {
                let mut v = Vec::new();
                v.push(Blocker::SourceProfileNotCaptured);
                v.push(Blocker::DestinationModelMissing);
                v
            },
        },
        CoverageFamily::Deals => CoverageDescriptor {
            family,
            path: CoveragePath::NotCaptured,
            source_evidence: SourceEvidence::NotCaptured,
            destination_surface: DestinationSurface::Unavailable,
            blocker_codes: {
                let mut v = Vec::new();
                v.push(Blocker::SourceProfileNotCaptured);
                v.push(Blocker::DestinationModelMissing);
                v
            },
        },
        CoverageFamily::Emails => CoverageDescriptor {
            family,
            path: CoveragePath::NotCaptured,
            source_evidence: SourceEvidence::NotCaptured,
            destination_surface: DestinationSurface::Unavailable,
            blocker_codes: {
                let mut v = Vec::new();
                v.push(Blocker::SourceProfileNotCaptured);
                v.push(Blocker::EmailBulkStorageUnresolved);
                v
            },
        },
        CoverageFamily::Recordings => CoverageDescriptor {
            family,
            path: CoveragePath::NotCaptured,
            source_evidence: SourceEvidence::NotCaptured,
            destination_surface: DestinationSurface::Unavailable,
            blocker_codes: {
                let mut v = Vec::new();
                v.push(Blocker::SourceProfileNotCaptured);
                v.push(Blocker::RecordingPolicyUnresolved);
                v
            },
        },
        CoverageFamily::ExternalFiles => CoverageDescriptor {
            family,
            path: CoveragePath::NotCaptured,
            source_evidence: SourceEvidence::NotCaptured,
            destination_surface: DestinationSurface::Unavailable,
            blocker_codes: {
                let mut v = Vec::new();
                v.push(Blocker::SourceProfileNotCaptured);
                v.push(Blocker::DestinationModelMissing);
                v
            },
        },
        CoverageFamily::AutomationSettings => CoverageDescriptor {
            family,
            path: CoveragePath::NotCaptured,
            source_evidence: SourceEvidence::NotCaptured,
            destination_surface: DestinationSurface::Unavailable,
            blocker_codes: {
                let mut v = Vec::new();
                v.push(Blocker::SourceProfileNotCaptured);
                v.push(Blocker::DestinationModelMissing);
                v
            },
        },
        CoverageFamily::SourceDeletionSemantics => CoverageDescriptor {
            family,
            path: CoveragePath::Unknown,
            source_evidence: SourceEvidence::Unknown,
            destination_surface: DestinationSurface::Unavailable,
            blocker_codes: {
                let mut v = Vec::new();
                v.push(Blocker::SourceDeletionSemanticsUnknown);
                v
            },
        },
        CoverageFamily::WorkspaceActivation => CoverageDescriptor {
            family,
            path: CoveragePath::DeferredPrerequisite,
            source_evidence: SourceEvidence::DeferredPolicy,
            destination_surface: DestinationSurface::Deferred,
            blocker_codes: {
                let mut v = Vec::new();
                v.push(Blocker::ActivationNotImplemented);
                v.push(Blocker::MigrationReviewOnly);
                v
            },
        },
        CoverageFamily::PrivacyErasure => CoverageDescriptor {
            family,
            path: CoveragePath::DeferredPrerequisite,
            source_evidence: SourceEvidence::DeferredPolicy,
            destination_surface: DestinationSurface::Deferred,
            blocker_codes: {
                let mut v = Vec::new();
                v.push(Blocker::O012Open);
                v.push(Blocker::O013Open);
                v
            },
        },
    }
}

/// Returns the complete, fixed taxonomy in stable report order.
pub fn inventory() -> (descriptors: Vec<CoverageDescriptor>)
    ensures
        descriptors.len() == inventory_len(),
        forall|i: int|
            0 <= i < descriptors.len() ==> describes(#[trigger] descriptors[i], family_at(i)),
{
    let mut descriptors: Vec<CoverageDescriptor> = Vec::new();
    descriptors.push(descriptor(CoverageFamily::PeopleContacts));
    descriptors.push(descriptor(CoverageFamily::Stages));
    descriptors.push(descriptor(CoverageFamily::SourceUsers));
    descriptors.push(descriptor(CoverageFamily::EmbeddedPersonTags));
    descriptors.push(descriptor(CoverageFamily::StandaloneTagCatalog));
    descriptors.push(descriptor(CoverageFamily::CustomFields));
    descriptors.push(descriptor(CoverageFamily::Notes));
    descriptors.push(descriptor(CoverageFamily::Tasks));
    descriptors.push(descriptor(CoverageFamily::HistoricalEvents));
    descriptors.push(descriptor(CoverageFamily::Calls));
    descriptors.push(descriptor(CoverageFamily::Texts));
    descriptors.push(descriptor(CoverageFamily::Addresses));
    descriptors.push(descriptor(CoverageFamily::Relationships));
    descriptors.push(descriptor(CoverageFamily::Appointments));
    descriptors.push(descriptor(CoverageFamily::Deals));
    descriptors.push(descriptor(CoverageFamily::Emails));
    descriptors.push(descriptor(CoverageFamily::Recordings));
    descriptors.push(descriptor(CoverageFamily::ExternalFiles));
    descriptors.push(descriptor(CoverageFamily::AutomationSettings));
    descriptors.push(descriptor(CoverageFamily::SourceDeletionSemantics));
    descriptors.push(descriptor(CoverageFamily::WorkspaceActivation));
    descriptors.push(descriptor(CoverageFamily::PrivacyErasure));
    descriptors
}

pub open spec fn inventoried(family: CoverageFamily) -> bool {
    exists|i: int| 0 <= i < inventory_len() && #[trigger] family_at(i) == family
}

/// Every family occurs exactly once in the inventory.
pub proof fn law_inventory_is_unique_and_complete()
    ensures
        forall|i: int, j: int|
            0 <= i < j < inventory_len() ==> #[trigger] family_at(i) != #[trigger] family_at(j),
        forall|f: CoverageFamily| #[trigger] inventoried(f),
{
    assert forall|f: CoverageFamily| #[trigger] inventoried(f) by {
        match f {
            CoverageFamily::PeopleContacts => assert(family_at(0) == f),
            CoverageFamily::Stages => assert(family_at(1) == f),
            CoverageFamily::SourceUsers => assert(family_at(2) == f),
            CoverageFamily::EmbeddedPersonTags => assert(family_at(3) == f),
            CoverageFamily::StandaloneTagCatalog => assert(family_at(4) == f),
            CoverageFamily::CustomFields => assert(family_at(5) == f),
            CoverageFamily::Notes => assert(family_at(6) == f),
            CoverageFamily::Tasks => assert(family_at(7) == f),
            CoverageFamily::HistoricalEvents => assert(family_at(8) == f),
            CoverageFamily::Calls => assert(family_at(9) == f),
            CoverageFamily::Texts => assert(family_at(10) == f),
            CoverageFamily::Addresses => assert(family_at(11) == f),
            CoverageFamily::Relationships => assert(family_at(12) == f),
            CoverageFamily::Appointments => assert(family_at(13) == f),
            CoverageFamily::Deals => assert(family_at(14) == f),
            CoverageFamily::Emails => assert(family_at(15) == f),
            CoverageFamily::Recordings => assert(family_at(16) == f),
            CoverageFamily::ExternalFiles => assert(family_at(17) == f),
            CoverageFamily::AutomationSettings => assert(family_at(18) == f),
            CoverageFamily::SourceDeletionSemantics => assert(family_at(19) == f),
            CoverageFamily::WorkspaceActivation => assert(family_at(20) == f),
            CoverageFamily::PrivacyErasure => assert(family_at(21) == f),
        }
    }
}

/// No implemented surface is presented as ready: each one carries the
/// migration-review-only blocker.
pub proof fn law_no_false_ready_surface(family: CoverageFamily)
    ensures
        path_of(family) == CoveragePath::Implemented ==> blockers_of(family).contains(
            Blocker::MigrationReviewOnly,
        ),
{
    match family {
        CoverageFamily::PeopleContacts => assert(blockers_of(family)[2] == Blocker::MigrationReviewOnly),
        CoverageFamily::Stages => assert(blockers_of(family)[1] == Blocker::MigrationReviewOnly),
        CoverageFamily::SourceUsers => assert(blockers_of(family)[2] == Blocker::MigrationReviewOnly),
        CoverageFamily::EmbeddedPersonTags => assert(blockers_of(family)[2] == Blocker::MigrationReviewOnly),
        CoverageFamily::StandaloneTagCatalog => {},
        CoverageFamily::CustomFields => assert(blockers_of(family)[2] == Blocker::MigrationReviewOnly),
        CoverageFamily::Notes => assert(blockers_of(family)[2] == Blocker::MigrationReviewOnly),
        CoverageFamily::Tasks => assert(blockers_of(family)[1] == Blocker::MigrationReviewOnly),
        CoverageFamily::HistoricalEvents => {},
        CoverageFamily::Calls => {},
        CoverageFamily::Texts => {},
        CoverageFamily::Addresses => {},
        CoverageFamily::Relationships => {},
        CoverageFamily::Appointments => {},
        CoverageFamily::Deals => {},
        CoverageFamily::Emails => {},
        CoverageFamily::Recordings => {},
        CoverageFamily::ExternalFiles => {},
        CoverageFamily::AutomationSettings => {},
        CoverageFamily::SourceDeletionSemantics => {},
        CoverageFamily::WorkspaceActivation => {},
        CoverageFamily::PrivacyErasure => {},
    }
}

/// History families stay metadata-only and uncaptured families stay explicit.
pub proof fn law_history_is_metadata_only(family: CoverageFamily)
    ensures
        family == CoverageFamily::HistoricalEvents || family == CoverageFamily::Calls || family
            == CoverageFamily::Texts ==> path_of(family) == CoveragePath::MetadataOnly
            && surface_of(family) == DestinationSurface::MetadataOnly,
        path_of(family) == CoveragePath::NotCaptured ==> evidence_of(family)
            == SourceEvidence::NotCaptured && surface_of(family) == DestinationSurface::Unavailable,
{
}

/// A character of a blocker code: a lower-case letter, a digit or `_`.
pub open spec fn code_char(c: char) -> bool {
    ('a' <= c && c <= 'z') || ('0' <= c && c <= '9') || c == '_'
}

/// Blocker codes carry no source content: each is a non-empty word of
/// lower-case letters, digits and underscores.
pub proof fn law_blocker_codes_are_plain_words(blocker: Blocker)
    ensures
        blocker_code(blocker).len() > 0,
        forall|i: int| 0 <= i < blocker_code(blocker).len() ==> code_char(#[trigger] blocker_code(blocker)[i]),
{
    match blocker {
        Blocker::SourceScopeNotLiveQualified => {
            reveal_strlit("source_scope_not_live_qualified");
        },
        Blocker::SourceDeletionSemanticsUnknown => {
            reveal_strlit("source_deletion_semantics_unknown");
        },
        Blocker::MigrationReviewOnly => {
            reveal_strlit("migration_review_only");
        },
        Blocker::SourceUsersDoNotCreateIdentities => {
            reveal_strlit("source_users_do_not_create_identities");
        },
        Blocker::EmbeddedPersonTagsOnly => {
            reveal_strlit("embedded_person_tags_only");
        },
        Blocker::StandaloneTagCatalogUnqualified => {
            reveal_strlit("standalone_tag_catalog_unqualified");
        },
        Blocker::UnsupportedValuesOrMappingHolds => {
            reveal_strlit("unsupported_values_or_mapping_holds");
        },
        Blocker::RestrictedNoteDetailPossible => {
            reveal_strlit("restricted_note_detail_possible");
        },
        Blocker::UnsupportedRepliesOrAttachmentsPossible => {
            reveal_strlit("unsupported_replies_or_attachments_possible");
        },
        Blocker::UnsupportedTaskSemanticsPossible => {
            reveal_strlit("unsupported_task_semantics_possible");
        },
        Blocker::ExternalFactsOnly => {
            reveal_strlit("external_facts_only");
        },
        Blocker::HistoryContentNotImported => {
            reveal_strlit("history_content_not_imported");
        },
        Blocker::ApiRestrictedRecordsUnknown => {
            reveal_strlit("api_restricted_records_unknown");
        },
        Blocker::CallApiRestrictedRecordsUnknown => {
            reveal_strlit("call_api_restricted_records_unknown");
        },
        Blocker::CallContentAndMediaNotImported => {
            reveal_strlit("call_content_and_media_not_imported");
        },
        Blocker::TextApiRestrictedRecordsUnknown => {
            reveal_strlit("text_api_restricted_records_unknown");
        },
        Blocker::TextContentNotImported => {
            reveal_strlit("text_content_not_imported");
        },
        Blocker::DestinationModelMissing => {
            reveal_strlit("destination_model_missing");
        },
        Blocker::RetainedOnlyWhenReturned => {
            reveal_strlit("retained_only_when_returned");
        },
        Blocker::SourceProfileNotCaptured => {
            reveal_strlit("source_profile_not_captured");
        },
        Blocker::EmailBulkStorageUnresolved => {
            reveal_strlit("email_bulk_storage_unresolved");
        },
        Blocker::RecordingPolicyUnresolved => {
            reveal_strlit("recording_policy_unresolved");
        },
        Blocker::ActivationNotImplemented => {
            reveal_strlit("activation_not_implemented");
        },
        Blocker::O012Open => {
            reveal_strlit("o_012_open");
        },
        Blocker::O013Open => {
            reveal_strlit("o_013_open");
        },
    }
}

} // verus!
