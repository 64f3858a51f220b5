//! Keyed digests that bind core change commands and their receipts, the
//! sealing of core change records, and the replay check of a receipt.
use crate::bytes::push_all;
use crate::crypto::{
    hmac_sha256, open_history, opened, request_digest, request_message, seal_history, sealed_as, snapshot_purpose,
    OrganizationId, RawPayloadKey, Sealed,
};
use crate::error::MigrationError;
use crate::family_refresh::model::bytes_equal;
use vstd::prelude::*;
use vstd::string::StringSliceAdditionalSpecFns;

verus! {

/// The digest of one serialized core change command (its tenant, actor,
/// operation, target and body, serialized together by the caller).
pub fn digest(key: &RawPayloadKey, serialized_command: &[u8]) -> (tag: [u8; 32])
    ensures
        tag@ == hmac_sha256(
            key@,
            request_message("core-change-command".spec_bytes(), serialized_command@),
        ),
{
    request_digest(key, "core-change-command", serialized_command)
}

/// The digest binding a stored receipt body to the tuple it answers.
pub fn bound_digest(key: &RawPayloadKey, body: &[u8], tuple: &[u8]) -> (tag: [u8; 32])
    ensures
        tag@ == hmac_sha256(
            key@,
            request_message("core-change-bound-receipt".spec_bytes(), body@ + tuple@),
        ),
{
    let mut input: Vec<u8> = Vec::new();
    push_all(&mut input, body);
    push_all(&mut input, tuple);
    assert(input@ =~= body@ + tuple@);
    request_digest(key, "core-change-bound-receipt", input.as_slice())
}

/// Longest serialized core change record that is sealed or accepted when
/// opened.
pub const RECORD_BYTES: usize = 32768;

/// The sealing purpose of a core change record of the given kind
/// (`inputs`, `receipt`, ...).
pub open spec fn record_purpose(purpose: Seq<u8>) -> Seq<u8> {
    "core-change-".spec_bytes() + purpose
}

fn record_purpose_of(purpose: &str) -> (bytes: Vec<u8>)
    ensures
        bytes@ == record_purpose(purpose.spec_bytes()),
{
    let mut bytes: Vec<u8> = Vec::new();
    push_all(&mut bytes, "core-change-".as_bytes());
    push_all(&mut bytes, purpose.as_bytes());
    bytes
}

/// Seals one serialized core change record of `report`, bound to `row` and
/// its kind; a record past `RECORD_BYTES` is refused as a storage limit.
pub fn seal_record(
    key: &RawPayloadKey,
    org: OrganizationId,
    report: u128,
    row: u128,
    purpose: &str,
    serialized: &[u8],
) -> (r: Result<Sealed, MigrationError>)
    ensures
        serialized@.len() > RECORD_BYTES ==> r == Err::<Sealed, MigrationError>(MigrationError::StorageLimit),
        serialized@.len() <= RECORD_BYTES ==> r is Ok,
        r matches Ok(s) ==> sealed_as(
            key@,
            snapshot_purpose(report, record_purpose(purpose.spec_bytes())),
            org.0,
            row,
            1,
            serialized@,
            s.nonce@,
            s.ciphertext@,
        ),
{
    if serialized.len() > RECORD_BYTES {
        return Err(MigrationError::StorageLimit);
    }
    let p = record_purpose_of(purpose);
    match seal_history(key, org, report, row, p.as_slice(), serialized) {
        Ok(s) => Ok(s),
        Err(_) => Err(MigrationError::Crypto),
    }
}

/// Opens one sealed core change record; a record that does not open, or
/// opens past `RECORD_BYTES`, is refused.
pub fn open_record(
    key: &RawPayloadKey,
    org: OrganizationId,
    report: u128,
    row: u128,
    purpose: &str,
    nonce: &[u8],
    ciphertext: &[u8],
) -> (r: Result<Vec<u8>, MigrationError>)
    ensures
        ({
            let o = opened(
                key@,
                snapshot_purpose(report, record_purpose(purpose.spec_bytes())),
                org.0,
                row,
                1,
                nonce@,
                ciphertext@,
            );
            &&& r is Ok <==> (o matches Some(p) && p.len() <= RECORD_BYTES)
            &&& r matches Ok(b) ==> o == Some(b@)
            &&& r matches Err(e) ==> e == MigrationError::Crypto
        }),
{
    let p = record_purpose_of(purpose);
    match open_history(key, org, report, row, p.as_slice(), nonce, ciphertext) {
        Ok(b) => if b.len() > RECORD_BYTES {
            Err(MigrationError::Crypto)
        } else {
            Ok(b)
        },
        Err(_) => Err(MigrationError::Crypto),
    }
}

/// A stored receipt answers a retried request only for the same actor and
/// the same command bound to the same report inputs; anything else is a
/// conflict.
pub fn check_replay(
    key: &RawPayloadKey,
    stored_actor: u128,
    actor: u128,
    stored_digest: &[u8],
    command_digest: &[u8],
    tuple: &[u8],
) -> (r: Result<(), MigrationError>)
    ensures
        r is Ok <==> (stored_actor == actor && stored_digest@ == hmac_sha256(
            key@,
            request_message("core-change-bound-receipt".spec_bytes(), command_digest@ + tuple@),
        )),
        r matches Err(e) ==> e == MigrationError::Conflict,
{
    if stored_actor != actor {
        return Err(MigrationError::Conflict);
    }
    let bound = bound_digest(key, command_digest, tuple);
    if !bytes_equal(stored_digest, bound.as_slice()) {
        return Err(MigrationError::Conflict);
    }
    Ok(())
}

} // verus!
