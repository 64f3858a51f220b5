use crm_migration::crypto::{OrganizationId, RawPayloadKey};
use crm_migration::error::MigrationError;
use crm_migration::family_refresh::evidence::{BoundedBuffer, Purpose, Scope};
use crm_migration::family_refresh::model::Family;
use uuid::Uuid;

fn id() -> u128 {
    Uuid::new_v4().as_u128()
}

fn scope() -> Scope {
    Scope {
        organization: OrganizationId::new(id()),
        bundle: id(),
        plan: id(),
        family: Family::Activity,
        revision: 1,
    }
}

#[test]
fn evidence_cannot_move_between_authority_scopes_or_purposes() {
    let key = RawPayloadKey::new([37; 32]);
    let scope = scope();
    let row = id();
    let source = br#"{"body":"synthetic retained note"}"#.to_vec();
    let sealed = scope.seal(&key, row, Purpose::Result, &source).unwrap();
    assert_eq!(
        scope.open(&key, row, Purpose::Result, &sealed.nonce, &sealed.ciphertext).unwrap(),
        source
    );
    let changed = [
        Scope { organization: OrganizationId::new(id()), ..scope },
        Scope { bundle: id(), ..scope },
        Scope { plan: id(), ..scope },
        Scope { family: Family::Metadata, ..scope },
        Scope { revision: 2, ..scope },
    ];
    for other in changed {
        assert!(other.open(&key, row, Purpose::Result, &sealed.nonce, &sealed.ciphertext).is_err());
    }
    assert!(scope.open(&key, id(), Purpose::Result, &sealed.nonce, &sealed.ciphertext).is_err());
    assert!(scope.open(&key, row, Purpose::Manifest, &sealed.nonce, &sealed.ciphertext).is_err());
    let mut corrupted = sealed.ciphertext;
    corrupted[0] ^= 1;
    assert!(scope.open(&key, row, Purpose::Result, &sealed.nonce, &corrupted).is_err());
}

#[test]
fn evidence_enforces_limits_before_encrypting_or_decrypting() {
    let key = RawPayloadKey::new([38; 32]);
    let scope = scope();
    let row = id();
    let long = serde_json::to_vec(&"x".repeat(65536)).unwrap();
    assert_eq!(
        scope.seal(&key, row, Purpose::Mapping, &long).map(|_| ()),
        Err(MigrationError::StorageLimit)
    );
    assert!(scope.open(&key, row, Purpose::Mapping, &[0; 24], &vec![0; 65553]).is_err());
    assert!(Scope { revision: 0, ..scope }.seal(&key, row, Purpose::Mapping, b"{}").is_err());
}

#[test]
fn history_display_is_sealed_only_within_history() {
    let key = RawPayloadKey::new([39; 32]);
    let row = id();
    assert!(scope().seal(&key, row, Purpose::HistoryDisplay, b"{}").is_err());
    let history = Scope { family: Family::History, ..scope() };
    let sealed = history.seal(&key, row, Purpose::HistoryDisplay, b"{}").unwrap();
    assert_eq!(
        history.open(&key, row, Purpose::HistoryDisplay, &sealed.nonce, &sealed.ciphertext).unwrap(),
        b"{}".to_vec()
    );
    assert_eq!(Purpose::HistoryDisplay.label(), "history-display");
    assert_eq!(Purpose::HistoryDisplay.limit(), 4096);
    assert_eq!(Purpose::Source.limit(), 4 * 1024 * 1024);
}

#[test]
fn bounded_buffer_refuses_growth_past_its_limit() {
    let mut buffer = BoundedBuffer::new(4);
    assert_eq!(buffer.write(b"ab"), Ok(2));
    assert_eq!(buffer.write(b"cd"), Ok(2));
    assert_eq!(buffer.write(b"e"), Err(MigrationError::StorageLimit));
    assert_eq!(buffer.flush(), Ok(()));
    assert_eq!(buffer.into_bytes(), b"abcd".to_vec());
}
