use crm_migration::core_change_reports::{cancel_state, is_active, report_start, resume_actor, resume_state, ReportStart};
use crm_migration::core_change_store::{bound_digest, check_replay, open_record, seal_record, RECORD_BYTES};
use crm_migration::crypto::{OrganizationId, RawPayloadKey};
use crm_migration::error::MigrationError;

#[test]
fn core_change_records_are_bounded_and_bound_to_their_kind() {
    let key = RawPayloadKey::new([3; 32]);
    let org = OrganizationId::new(5);
    let sealed = seal_record(&key, org, 7, 8, "inputs", b"{\"a\":1}").ok().unwrap();
    assert_eq!(
        open_record(&key, org, 7, 8, "inputs", &sealed.nonce, &sealed.ciphertext).ok(),
        Some(b"{\"a\":1}".to_vec())
    );
    assert_eq!(
        open_record(&key, org, 7, 8, "summary", &sealed.nonce, &sealed.ciphertext).err(),
        Some(MigrationError::Crypto)
    );
    assert_eq!(open_record(&key, org, 7, 9, "inputs", &sealed.nonce, &sealed.ciphertext).err(), Some(MigrationError::Crypto));
    let big = vec![b'x'; RECORD_BYTES + 1];
    assert_eq!(seal_record(&key, org, 7, 8, "inputs", &big).err(), Some(MigrationError::StorageLimit));
    assert!(seal_record(&key, org, 7, 8, "inputs", &vec![b'x'; RECORD_BYTES]).is_ok());
}

#[test]
fn receipts_replay_only_for_the_same_actor_and_command() {
    let key = RawPayloadKey::new([3; 32]);
    let stored = bound_digest(&key, b"cmd", b"tuple");
    assert_eq!(check_replay(&key, 4, 4, &stored, b"cmd", b"tuple"), Ok(()));
    assert_eq!(check_replay(&key, 4, 5, &stored, b"cmd", b"tuple"), Err(MigrationError::Conflict));
    assert_eq!(check_replay(&key, 4, 4, &stored, b"other", b"tuple"), Err(MigrationError::Conflict));
}

#[test]
fn reports_start_resume_and_cancel_only_in_their_states() {
    assert_eq!(report_start(Some(9), true), Ok(ReportStart::Existing { report_id: 9 }));
    assert_eq!(report_start(None, true), Err(MigrationError::Conflict));
    assert_eq!(report_start(None, false), Ok(ReportStart::New));
    assert!(is_active("paused") && !is_active("completed"));
    assert_eq!(resume_actor(1, 2), Err(MigrationError::Forbidden));
    assert_eq!(resume_state("paused"), Ok(()));
    assert_eq!(resume_state("running"), Err(MigrationError::Conflict));
    assert_eq!(cancel_state("completed"), Err(MigrationError::Conflict));
    assert_eq!(cancel_state("running"), Ok(()));
}
