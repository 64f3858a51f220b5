use crm_migration::crypto::{
    content_hmac, open_credential, open_evidence, open_identity, open_receipt, open_snapshot,
    request_digest, seal_credential, seal_evidence, seal_identity, seal_receipt, seal_snapshot,
    snapshot_hmac, OrganizationId, RawPayloadKey,
};
use uuid::Uuid;

fn id() -> u128 {
    Uuid::new_v4().as_u128()
}

#[test]
fn purpose_and_aad_are_bound() {
    let key = RawPayloadKey::new([3; 32]);
    let org = OrganizationId::new(id());
    let row = id();
    let sealed = seal_credential(&key, org, row, 1, b"secret").unwrap();
    assert_eq!(
        open_credential(&key, org, row, 1, &sealed.nonce, &sealed.ciphertext).unwrap(),
        b"secret"
    );
    assert!(open_credential(&key, org, row, 2, &sealed.nonce, &sealed.ciphertext).is_err());
    assert!(open_evidence(&key, org, row, &sealed.nonce, &sealed.ciphertext).is_err());
}

#[test]
fn tenant_row_purpose_and_tamper_are_rejected() {
    let key = RawPayloadKey::new([9; 32]);
    let org = OrganizationId::new(id());
    let other = OrganizationId::new(id());
    let row = id();
    let sealed = seal_evidence(&key, org, row, b"synthetic private evidence").unwrap();
    assert_eq!(
        open_evidence(&key, org, row, &sealed.nonce, &sealed.ciphertext).unwrap(),
        b"synthetic private evidence"
    );
    assert!(open_evidence(&key, other, row, &sealed.nonce, &sealed.ciphertext).is_err());
    assert!(open_evidence(&key, org, id(), &sealed.nonce, &sealed.ciphertext).is_err());
    assert!(open_identity(&key, org, row, 1, &sealed.nonce, &sealed.ciphertext).is_err());
    assert!(open_credential(&key, org, row, 1, &sealed.nonce, &sealed.ciphertext).is_err());
    let mut bytes = sealed.ciphertext;
    bytes[0] ^= 1;
    assert!(open_evidence(&key, org, row, &sealed.nonce, &bytes).is_err());
    assert_ne!(request_digest(&key, "create", b"key"), request_digest(&key, "replace", b"key"));
}

#[test]
fn snapshot_payloads_and_lookup_keys_bind_tenant_run_row_and_purpose() {
    let key = RawPayloadKey::new([7; 32]);
    let org = OrganizationId::new(id());
    let other = OrganizationId::new(id());
    let run = id();
    let row = id();
    let sealed = seal_snapshot(&key, org, run, row, "capture", b"synthetic payload").unwrap();
    assert_eq!(
        open_snapshot(&key, org, run, row, "capture", &sealed.nonce, &sealed.ciphertext).unwrap(),
        b"synthetic payload"
    );
    for (o, r, rid, p) in [
        (other, run, row, "capture"),
        (org, id(), row, "capture"),
        (org, run, id(), "capture"),
        (org, run, row, "record"),
    ] {
        assert!(open_snapshot(&key, o, r, rid, p, &sealed.nonce, &sealed.ciphertext).is_err());
    }
    assert!(open_snapshot(
        &RawPayloadKey::new([8; 32]),
        org,
        run,
        row,
        "capture",
        &sealed.nonce,
        &sealed.ciphertext
    )
    .is_err());
    assert_ne!(
        snapshot_hmac(&key, org, "contact:email", b"synthetic@test"),
        snapshot_hmac(&key, other, "contact:email", b"synthetic@test")
    );
    assert_ne!(
        snapshot_hmac(&key, org, "contact:email", b"synthetic@test"),
        snapshot_hmac(&key, org, "semantic", b"synthetic@test")
    );
}

#[test]
fn identity_and_receipt_round_trip_and_differ_from_content_digest() {
    let key = RawPayloadKey::new([5; 32]);
    let org = OrganizationId::new(id());
    let row = id();
    let identity = seal_identity(&key, org, row, 3, b"identity").unwrap();
    assert_eq!(
        open_identity(&key, org, row, 3, &identity.nonce, &identity.ciphertext).unwrap(),
        b"identity"
    );
    assert!(open_identity(&key, org, row, 4, &identity.nonce, &identity.ciphertext).is_err());
    let receipt = seal_receipt(&key, org, row, "create", b"receipt").unwrap();
    assert_eq!(
        open_receipt(&key, org, row, "create", &receipt.nonce, &receipt.ciphertext).unwrap(),
        b"receipt"
    );
    assert!(open_receipt(&key, org, row, "replace", &receipt.nonce, &receipt.ciphertext).is_err());
    assert!(open_receipt(&key, org, row, "create", &receipt.nonce[..23], &receipt.ciphertext).is_err());
    assert_eq!(content_hmac(&key, b"x"), content_hmac(&key, b"x"));
    assert_ne!(content_hmac(&key, b"x"), content_hmac(&key, b"y"));
    assert_ne!(content_hmac(&key, b"x"), request_digest(&key, "create", b"x"));
}
