use crm_migration::crypto::{snapshot_hmac, OrganizationId, RawPayloadKey};
use crm_migration::error::MigrationError;
use crm_migration::family_refresh::history_index::{
    check_observation, check_page, index_phase, index_step, interpret, page_accepted, parse_allowed,
    CaptureRecord, HistoryStream, Imported, ObservationRow,
};
use crm_migration::family_refresh::model::Hold;

fn record(body: &[u8]) -> CaptureRecord {
    CaptureRecord {
        source_id: Some("1".into()),
        primary_person_id: Some("101".into()),
        relationship_uncertain: false,
        person_refs: vec!["101".into()],
        canonical: body.to_vec(),
    }
}

fn imported() -> Result<Imported, MigrationError> {
    Ok(Imported { created: None, metadata: b"{\"kind\":\"call\"}".to_vec() })
}

#[test]
fn identity_is_stable_across_body_corrections_and_semantics_are_not() {
    let key = RawPayloadKey::new([74; 32]);
    let org = OrganizationId::new(9);
    for stream in [HistoryStream::Events, HistoryStream::Calls, HistoryStream::TextMessages] {
        let a = interpret(&key, org, 17, 3, stream, "v1", &record(b"first"), imported()).ok().unwrap();
        let b = interpret(&key, org, 17, 3, stream, "v1", &record(b"second"), imported()).ok().unwrap();
        assert_eq!(a.identity_hmac, b.identity_hmac);
        assert_ne!(a.semantic_hmac, b.semantic_hmac);
        assert_eq!(a.source_person, "101");
        let expected = snapshot_hmac(
            &key,
            org,
            "timeline-import-identity-v1",
            format!("[17,\"{}\",\"v1\",\"1\"]", stream.as_str()).as_bytes(),
        );
        assert_eq!(a.identity_hmac, expected);
        let other_account = interpret(&key, org, 18, 3, stream, "v1", &record(b"first"), imported()).ok().unwrap();
        assert_ne!(a.identity_hmac, other_account.identity_hmac);
    }
}

#[test]
fn unsupported_or_ambiguous_records_are_held() {
    let key = RawPayloadKey::new([1; 32]);
    let org = OrganizationId::new(9);
    let s = HistoryStream::Calls;
    assert_eq!(interpret(&key, org, 0, 3, s, "v1", &record(b"x"), imported()).err(), Some(Hold::UnsupportedSource));
    assert_eq!(interpret(&key, org, 17, 0, s, "v1", &record(b"x"), imported()).err(), Some(Hold::UnsupportedSource));
    let mut anonymous = record(b"x");
    anonymous.source_id = None;
    assert_eq!(interpret(&key, org, 17, 3, s, "v1", &anonymous, imported()).err(), Some(Hold::UnsupportedSource));
    let mut two = record(b"x");
    two.person_refs.push("102".into());
    assert_eq!(interpret(&key, org, 17, 3, s, "v1", &two, imported()).err(), Some(Hold::IdentityMismatch));
    let mut unsure = record(b"x");
    unsure.relationship_uncertain = true;
    assert_eq!(interpret(&key, org, 17, 3, s, "v1", &unsure, imported()).err(), Some(Hold::IdentityMismatch));
    assert_eq!(
        interpret(&key, org, 17, 3, s, "v1", &record(b"x"), Err(MigrationError::StorageLimit)).err(),
        Some(Hold::UnitTooLarge)
    );
    assert_eq!(
        interpret(&key, org, 17, 3, s, "v1", &record(b"x"), Err(MigrationError::InvalidInput)).err(),
        Some(Hold::UnsupportedSource)
    );
}

#[test]
fn index_rows_keep_evidence_only_from_advancing_pages() {
    let key = RawPayloadKey::new([1; 32]);
    let org = OrganizationId::new(9);
    let e = || interpret(&key, org, 17, 3, HistoryStream::Events, "v1", &record(b"x"), imported());
    let (kept, reason) = index_step(true, e());
    assert!(kept.is_some() && reason.is_none());
    let (kept, reason) = index_step(false, e());
    assert!(kept.is_some());
    assert_eq!(reason, Some(Hold::SourceUnavailable));
    let big = interpret(&key, org, 17, 3, HistoryStream::Events, "v1", &record(b"x"), Ok(Imported { created: None, metadata: vec![b'x'; 4097] }));
    let (kept, reason) = index_step(true, big);
    assert!(kept.is_none());
    assert_eq!(reason, Some(Hold::UnitTooLarge));
    let (kept, reason) = index_step(true, Err(Hold::IdentityMismatch));
    assert!(kept.is_none());
    assert_eq!(reason, Some(Hold::IdentityMismatch));
}

#[test]
fn retained_pages_must_match_their_observations() {
    assert!(page_accepted("advancing"));
    assert!(!page_accepted("diagnostic"));
    assert!(parse_allowed(200, false, "v1", "v1"));
    assert!(!parse_allowed(200, true, "v1", "v1"));
    assert!(!parse_allowed(500, false, "v1", "v1"));
    assert!(!parse_allowed(200, false, "v0", "v1"));
    assert_eq!(check_page(true, Some(3), 3), Ok(()));
    assert_eq!(check_page(true, None, 0), Err(MigrationError::Crypto));
    assert_eq!(check_page(true, Some(2), 3), Err(MigrationError::Crypto));
    assert_eq!(check_page(false, None, 0), Ok(()));
    assert_eq!(check_page(false, Some(1), 1), Err(MigrationError::Crypto));
    let row = ObservationRow {
        ordinal: 2,
        capture_sequence: 5,
        family: "calls".into(),
        identity_hmac: Some(vec![1]),
        primary_person_hmac: None,
        semantic_hmac: vec![3],
    };
    assert_eq!(check_observation(&row, 2, 5, HistoryStream::Calls, &Some(vec![1]), &None, &[3]), Ok(()));
    assert!(check_observation(&row, 3, 5, HistoryStream::Calls, &Some(vec![1]), &None, &[3]).is_err());
    assert!(check_observation(&row, 2, 5, HistoryStream::Events, &Some(vec![1]), &None, &[3]).is_err());
    assert!(check_observation(&row, 2, 5, HistoryStream::Calls, &None, &None, &[3]).is_err());
    assert_eq!(index_phase("history", "capture"), Ok(true));
    assert_eq!(index_phase("history", "apply"), Ok(false));
    assert_eq!(index_phase("history", "cohort"), Err(MigrationError::Conflict));
    assert_eq!(index_phase("metadata", "capture"), Err(MigrationError::InvalidInput));
}
