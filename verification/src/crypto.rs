//! Separate AEAD/HMAC purposes for credentials and bounded probe evidence.
//! Both use the same payload key, but authenticated data binds every sealed
//! payload to its tenant, row, revision and purpose.
use crate::bytes::{be_i32, be_u128, i32_bytes, push_all, u128_bytes, uuid_hyphenated, uuid_text};
use chacha20poly1305::aead::{Aead, Payload};
use chacha20poly1305::{KeyInit as AeadKeyInit, XChaCha20Poly1305, XNonce};
use hmac::{Hmac, Mac};
use rand::RngCore;
use sha2::Sha256;
use vstd::prelude::*;
use vstd::string::StringSliceAdditionalSpecFns;

verus! {

/// The raw 32-byte payload key.
pub struct RawPayloadKey {
    bytes: [u8; 32],
}

impl View for RawPayloadKey {
    type V = Seq<u8>;

    closed spec fn view(&self) -> Seq<u8> {
        self.bytes@
    }
}

impl RawPayloadKey {
    pub fn new(bytes: [u8; 32]) -> (key: Self)
        ensures
            key@ == bytes@,
    {
        RawPayloadKey { bytes }
    }

    pub fn as_bytes(&self) -> (bytes: &[u8; 32])
        ensures
            bytes@ == self@,
    {
        &self.bytes
    }
}

/// Tenant identity.
#[derive(Debug, Clone, Copy, PartialEq, Eq, Structural)]
pub struct OrganizationId(pub u128);

impl OrganizationId {
    pub fn new(id: u128) -> (org: Self)
        ensures
            org.0 == id,
    {
        OrganizationId(id)
    }
}

#[derive(Debug, Clone, Copy, PartialEq, Eq, Structural)]
pub struct CryptoError;

pub const NONCE_LEN: usize = 24;

pub struct Sealed {
    pub nonce: [u8; 24],
    pub ciphertext: Vec<u8>,
}

/// What XChaCha20-Poly1305 encryption returns for the given key, nonce,
/// authenticated data and plaintext.
pub uninterp spec fn aead_seal(key: Seq<u8>, nonce: Seq<u8>, aad: Seq<u8>, plaintext: Seq<u8>) -> Seq<u8>;

/// What XChaCha20-Poly1305 decryption returns (None when authentication fails).
pub uninterp spec fn aead_open(key: Seq<u8>, nonce: Seq<u8>, aad: Seq<u8>, ciphertext: Seq<u8>) -> Option<Seq<u8>>;

/// The HMAC-SHA256 tag of `message` under `key`.
pub uninterp spec fn hmac_sha256(key: Seq<u8>, message: Seq<u8>) -> Seq<u8>;

/// Largest plaintext XChaCha20-Poly1305 accepts: fewer than `u32::MAX` blocks of 64 bytes.
pub open spec fn aead_accepts(plaintext_len: nat) -> bool {
    plaintext_len / 64 < u32::MAX
}

/// Calls `XChaCha20Poly1305::encrypt` (crate chacha20poly1305). Claims that the
/// ciphertext is the named encryption of the inputs, that it is 16 bytes (the
/// Poly1305 tag) longer than the plaintext, that decryption with the same key,
/// nonce and authenticated data gives the plaintext back, and that encryption
/// fails only for a message of `u32::MAX` or more 64-byte blocks.
#[verifier::external_body]
fn aead_encrypt(key: &[u8; 32], nonce: &[u8; 24], aad: &[u8], plaintext: &[u8]) -> (ciphertext: Result<Vec<u8>, CryptoError>)
    ensures
        ciphertext is Ok <==> aead_accepts(plaintext@.len()),
        ciphertext matches Ok(c) ==> {
            &&& c@ == aead_seal(key@, nonce@, aad@, plaintext@)
            &&& c@.len() == plaintext@.len() + 16
            &&& aead_open(key@, nonce@, aad@, c@) == Some(plaintext@)
        },
{
    XChaCha20Poly1305::new(key.into())
        .encrypt(XNonce::from_slice(nonce), Payload { msg: plaintext, aad })
        .map_err(|_| CryptoError)
}

/// Calls `XChaCha20Poly1305::decrypt` (crate chacha20poly1305). Claims that the
/// result is the named decryption of the inputs.
#[verifier::external_body]
fn aead_decrypt(key: &[u8; 32], nonce: &[u8], aad: &[u8], ciphertext: &[u8]) -> (plaintext: Result<Vec<u8>, CryptoError>)
    requires
        nonce@.len() == 24,
    ensures
        plaintext matches Ok(p) ==> aead_open(key@, nonce@, aad@, ciphertext@) == Some(p@),
        plaintext is Err ==> aead_open(key@, nonce@, aad@, ciphertext@) is None,
{
    XChaCha20Poly1305::new(key.into())
        .decrypt(XNonce::from_slice(nonce), Payload { msg: ciphertext, aad })
        .map_err(|_| CryptoError)
}

/// Fills a nonce from `rand::rng()` (crate rand). Nothing is claimed of the bytes.
#[verifier::external_body]
fn random_nonce() -> [u8; 24] {
    let mut nonce = [0u8; 24];
    rand::rng().fill_bytes(&mut nonce);
    nonce
}

/// Calls `Hmac::<Sha256>::new_from_slice`, `update` and `finalize` (crate hmac).
/// HMAC accepts keys of any length, so the construction never fails; claims the
/// tag is the named HMAC-SHA256 of the message.
#[verifier::external_body]
fn hmac_tag(key: &[u8; 32], message: &[u8]) -> (tag: [u8; 32])
    ensures
        tag@ == hmac_sha256(key@, message@),
{
    let mut m = <Hmac<Sha256> as Mac>::new_from_slice(key).expect("valid key");
    m.update(message);
    m.finalize().into_bytes().into()
}

/// Authenticated data: purpose, a zero separator, tenant, row and revision.
pub open spec fn spec_aad(purpose: Seq<u8>, org: u128, row: u128, revision: i32) -> Seq<u8> {
    purpose + seq![0u8] + be_u128(org) + be_u128(row) + be_i32(revision)
}

fn aad(purpose: &[u8], org: OrganizationId, row: u128, revision: i32) -> (value: Vec<u8>)
    ensures
        value@ == spec_aad(purpose@, org.0, row, revision),
{
    let mut value = Vec::new();
    push_all(&mut value, purpose);
    value.push(0);
    let o = u128_bytes(org.0);
    push_all(&mut value, o.as_slice());
    let r = u128_bytes(row);
    push_all(&mut value, r.as_slice());
    let v = i32_bytes(revision);
    push_all(&mut value, v.as_slice());
    assert(value@ =~= spec_aad(purpose@, org.0, row, revision));
    value
}

/// What opening a payload bound to `(purpose, org, row, revision)` returns.
pub open spec fn opened(
    key: Seq<u8>,
    purpose: Seq<u8>,
    org: u128,
    row: u128,
    revision: i32,
    nonce: Seq<u8>,
    ciphertext: Seq<u8>,
) -> Option<Seq<u8>> {
    if nonce.len() == NONCE_LEN {
        aead_open(key, nonce, spec_aad(purpose, org, row, revision), ciphertext)
    } else {
        None
    }
}

/// A sealed payload: the encryption of `plaintext` under a 24-byte nonce with
/// the binding as authenticated data, which opens to the plaintext again.
pub open spec fn sealed_as(
    key: Seq<u8>,
    purpose: Seq<u8>,
    org: u128,
    row: u128,
    revision: i32,
    plaintext: Seq<u8>,
    nonce: Seq<u8>,
    ciphertext: Seq<u8>,
) -> bool {
    &&& nonce.len() == NONCE_LEN
    &&& ciphertext == aead_seal(key, nonce, spec_aad(purpose, org, row, revision), plaintext)
    &&& ciphertext.len() == plaintext.len() + 16
    &&& opened(key, purpose, org, row, revision, nonce, ciphertext) == Some(plaintext)
}

fn seal_purpose(
    key: &RawPayloadKey,
    purpose: &[u8],
    org: OrganizationId,
    row: u128,
    revision: i32,
    plaintext: &[u8],
) -> (sealed: Result<Sealed, CryptoError>)
    ensures
        sealed is Ok <==> aead_accepts(plaintext@.len()),
        sealed matches Ok(s) ==> sealed_as(
            key@,
            purpose@,
            org.0,
            row,
            revision,
            plaintext@,
            s.nonce@,
            s.ciphertext@,
        ),
{
    let nonce = random_nonce();
    let data = aad(purpose, org, row, revision);
    match aead_encrypt(key.as_bytes(), &nonce, data.as_slice(), plaintext) {
        Ok(ciphertext) => Ok(Sealed { nonce, ciphertext }),
        Err(e) => Err(e),
    }
}

fn open_purpose(
    key: &RawPayloadKey,
    purpose: &[u8],
    org: OrganizationId,
    row: u128,
    revision: i32,
    nonce: &[u8],
    ciphertext: &[u8],
) -> (plaintext: Result<Vec<u8>, CryptoError>)
    ensures
        plaintext is Ok <==> opened(key@, purpose@, org.0, row, revision, nonce@, ciphertext@) is Some,
        plaintext matches Ok(p) ==> opened(key@, purpose@, org.0, row, revision, nonce@, ciphertext@)
            == Some(p@),
{
    if nonce.len() != NONCE_LEN {
        return Err(CryptoError);
    }
    let data = aad(purpose, org, row, revision);
    aead_decrypt(key.as_bytes(), nonce, data.as_slice(), ciphertext)
}

pub open spec fn credential_purpose() -> Seq<u8> {
    "crm-migration-fub-credential-v1".spec_bytes()
}

pub open spec fn evidence_purpose() -> Seq<u8> {
    "crm-migration-fub-evidence-v1".spec_bytes()
}

pub open spec fn identity_purpose() -> Seq<u8> {
    "crm-migration-fub-identity-v1".spec_bytes()
}

pub fn seal_credential(
    key: &RawPayloadKey,
    org: OrganizationId,
    row: u128,
    revision: i32,
    plaintext: &[u8],
) -> (sealed: Result<Sealed, CryptoError>)
    ensures
        sealed is Ok <==> aead_accepts(plaintext@.len()),
        sealed matches Ok(s) ==> sealed_as(
            key@,
            credential_purpose(),
            org.0,
            row,
            revision,
            plaintext@,
            s.nonce@,
            s.ciphertext@,
        ),
{
    seal_purpose(key, "crm-migration-fub-credential-v1".as_bytes(), org, row, revision, plaintext)
}

pub fn open_credential(
    key: &RawPayloadKey,
    org: OrganizationId,
    row: u128,
    revision: i32,
    nonce: &[u8],
    ciphertext: &[u8],
) -> (plaintext: Result<Vec<u8>, CryptoError>)
    ensures
        plaintext is Ok <==> opened(
            key@,
            credential_purpose(),
            org.0,
            row,
            revision,
            nonce@,
            ciphertext@,
        ) is Some,
        plaintext matches Ok(p) ==> opened(
            key@,
            credential_purpose(),
            org.0,
            row,
            revision,
            nonce@,
            ciphertext@,
        ) == Some(p@),
{
    open_purpose(
        key,
        "crm-migration-fub-credential-v1".as_bytes(),
        org,
        row,
        revision,
        nonce,
        ciphertext,
    )
}

/// Evidence rows are sealed at revision 1.
pub fn seal_evidence(key: &RawPayloadKey, org: OrganizationId, row: u128, plaintext: &[u8]) -> (sealed: Result<Sealed, CryptoError>)
    ensures
        sealed is Ok <==> aead_accepts(plaintext@.len()),
        sealed matches Ok(s) ==> sealed_as(
            key@,
            evidence_purpose(),
            org.0,
            row,
            1,
            plaintext@,
            s.nonce@,
            s.ciphertext@,
        ),
{
    seal_purpose(key, "crm-migration-fub-evidence-v1".as_bytes(), org, row, 1, plaintext)
}

pub fn seal_identity(
    key: &RawPayloadKey,
    org: OrganizationId,
    row: u128,
    revision: i32,
    plaintext: &[u8],
) -> (sealed: Result<Sealed, CryptoError>)
    ensures
        sealed is Ok <==> aead_accepts(plaintext@.len()),
        sealed matches Ok(s) ==> sealed_as(
            key@,
            identity_purpose(),
            org.0,
            row,
            revision,
            plaintext@,
            s.nonce@,
            s.ciphertext@,
        ),
{
    seal_purpose(key, "crm-migration-fub-identity-v1".as_bytes(), org, row, revision, plaintext)
}

pub fn open_identity(
    key: &RawPayloadKey,
    org: OrganizationId,
    row: u128,
    revision: i32,
    nonce: &[u8],
    ciphertext: &[u8],
) -> (plaintext: Result<Vec<u8>, CryptoError>)
    ensures
        plaintext is Ok <==> opened(
            key@,
            identity_purpose(),
            org.0,
            row,
            revision,
            nonce@,
            ciphertext@,
        ) is Some,
        plaintext matches Ok(p) ==> opened(
            key@,
            identity_purpose(),
            org.0,
            row,
            revision,
            nonce@,
            ciphertext@,
        ) == Some(p@),
{
    open_purpose(
        key,
        "crm-migration-fub-identity-v1".as_bytes(),
        org,
        row,
        revision,
        nonce,
        ciphertext,
    )
}

pub fn open_evidence(
    key: &RawPayloadKey,
    org: OrganizationId,
    row: u128,
    nonce: &[u8],
    ciphertext: &[u8],
) -> (plaintext: Result<Vec<u8>, CryptoError>)
    ensures
        plaintext is Ok <==> opened(
            key@,
            evidence_purpose(),
            org.0,
            row,
            1,
            nonce@,
            ciphertext@,
        ) is Some,
        plaintext matches Ok(p) ==> opened(
            key@,
            evidence_purpose(),
            org.0,
            row,
            1,
            nonce@,
            ciphertext@,
        ) == Some(p@),
{
    open_purpose(key, "crm-migration-fub-evidence-v1".as_bytes(), org, row, 1, nonce, ciphertext)
}

pub open spec fn content_message(plaintext: Seq<u8>) -> Seq<u8> {
    "crm-migration-fub-evidence-hash-v1".spec_bytes() + plaintext
}

/// Keyed content hash of retained evidence.
pub fn content_hmac(key: &RawPayloadKey, plaintext: &[u8]) -> (tag: [u8; 32])
    ensures
        tag@ == hmac_sha256(key@, content_message(plaintext@)),
{
    let mut message = Vec::new();
    push_all(&mut message, "crm-migration-fub-evidence-hash-v1".as_bytes());
    push_all(&mut message, plaintext);
    hmac_tag(key.as_bytes(), message.as_slice())
}

/// The request message: domain prefix, zero, operation, zero, input.
pub open spec fn request_message(operation: Seq<u8>, input: Seq<u8>) -> Seq<u8> {
    "crm-migration-fub-request-v1".spec_bytes() + seq![0u8] + operation + seq![0u8] + input
}

fn request_digest_bytes(key: &RawPayloadKey, operation: &[u8], input: &[u8]) -> (tag: [u8; 32])
    ensures
        tag@ == hmac_sha256(key@, request_message(operation@, input@)),
{
    let mut message = Vec::new();
    push_all(&mut message, "crm-migration-fub-request-v1".as_bytes());
    message.push(0);
    push_all(&mut message, operation);
    message.push(0);
    push_all(&mut message, input);
    assert(message@ =~= request_message(operation@, input@));
    hmac_tag(key.as_bytes(), message.as_slice())
}

/// Request idempotency digest. The caller supplies an operation-specific
/// canonical byte sequence; credentials are HMAC input only and never enter
/// the receipt row or response.
pub fn request_digest(key: &RawPayloadKey, operation: &str, input: &[u8]) -> (tag: [u8; 32])
    ensures
        tag@ == hmac_sha256(key@, request_message(operation.spec_bytes(), input@)),
{
    request_digest_bytes(key, operation.as_bytes(), input)
}

pub open spec fn receipt_purpose(operation: Seq<u8>) -> Seq<u8> {
    "crm-migration-fub-receipt-v1:".spec_bytes() + operation
}

fn receipt_purpose_bytes(operation: &str) -> (purpose: Vec<u8>)
    ensures
        purpose@ == receipt_purpose(operation.spec_bytes()),
{
    let mut purpose = Vec::new();
    push_all(&mut purpose, "crm-migration-fub-receipt-v1:".as_bytes());
    push_all(&mut purpose, operation.as_bytes());
    purpose
}

pub fn seal_receipt(
    key: &RawPayloadKey,
    org: OrganizationId,
    request: u128,
    operation: &str,
    bytes: &[u8],
) -> (sealed: Result<Sealed, CryptoError>)
    ensures
        sealed is Ok <==> aead_accepts(bytes@.len()),
        sealed matches Ok(s) ==> sealed_as(
            key@,
            receipt_purpose(operation.spec_bytes()),
            org.0,
            request,
            1,
            bytes@,
            s.nonce@,
            s.ciphertext@,
        ),
{
    let purpose = receipt_purpose_bytes(operation);
    seal_purpose(key, purpose.as_slice(), org, request, 1, bytes)
}

pub fn open_receipt(
    key: &RawPayloadKey,
    org: OrganizationId,
    request: u128,
    operation: &str,
    nonce: &[u8],
    ciphertext: &[u8],
) -> (plaintext: Result<Vec<u8>, CryptoError>)
    ensures
        plaintext is Ok <==> opened(
            key@,
            receipt_purpose(operation.spec_bytes()),
            org.0,
            request,
            1,
            nonce@,
            ciphertext@,
        ) is Some,
        plaintext matches Ok(p) ==> opened(
            key@,
            receipt_purpose(operation.spec_bytes()),
            org.0,
            request,
            1,
            nonce@,
            ciphertext@,
        ) == Some(p@),
{
    let purpose = receipt_purpose_bytes(operation);
    open_purpose(key, purpose.as_slice(), org, request, 1, nonce, ciphertext)
}

/// Snapshot payloads bind the snapshot run and the closed purpose name.
pub open spec fn snapshot_purpose(run: u128, purpose: Seq<u8>) -> Seq<u8> {
    "crm-fub-core-v1:".spec_bytes() + uuid_text(run) + seq![58u8] + purpose
}

fn snapshot_purpose_of(run: u128, purpose: &[u8]) -> (bytes: Vec<u8>)
    ensures
        bytes@ == snapshot_purpose(run, purpose@),
{
    let mut bytes = Vec::new();
    push_all(&mut bytes, "crm-fub-core-v1:".as_bytes());
    let text = uuid_hyphenated(run);
    push_all(&mut bytes, text.as_slice());
    bytes.push(58);
    push_all(&mut bytes, purpose);
    assert(bytes@ =~= snapshot_purpose(run, purpose@));
    bytes
}

/// Snapshot payloads bind the Organization, snapshot, row and closed purpose.
/// Even two rows in one snapshot cannot exchange ciphertext.
pub fn seal_snapshot(
    key: &RawPayloadKey,
    org: OrganizationId,
    run: u128,
    row: u128,
    purpose: &str,
    bytes: &[u8],
) -> (sealed: Result<Sealed, CryptoError>)
    ensures
        sealed is Ok <==> aead_accepts(bytes@.len()),
        sealed matches Ok(s) ==> sealed_as(
            key@,
            snapshot_purpose(run, purpose.spec_bytes()),
            org.0,
            row,
            1,
            bytes@,
            s.nonce@,
            s.ciphertext@,
        ),
{
    seal_history(key, org, run, row, purpose.as_bytes(), bytes)
}

pub fn open_snapshot(
    key: &RawPayloadKey,
    org: OrganizationId,
    run: u128,
    row: u128,
    purpose: &str,
    nonce: &[u8],
    bytes: &[u8],
) -> (plaintext: Result<Vec<u8>, CryptoError>)
    ensures
        plaintext is Ok <==> opened(
            key@,
            snapshot_purpose(run, purpose.spec_bytes()),
            org.0,
            row,
            1,
            nonce@,
            bytes@,
        ) is Some,
        plaintext matches Ok(p) ==> opened(
            key@,
            snapshot_purpose(run, purpose.spec_bytes()),
            org.0,
            row,
            1,
            nonce@,
            bytes@,
        ) == Some(p@),
{
    open_history(key, org, run, row, purpose.as_bytes(), nonce, bytes)
}

/// Seals a payload bound to a run (snapshot or refresh bundle), a row and a
/// purpose given as bytes.
pub fn seal_history(
    key: &RawPayloadKey,
    org: OrganizationId,
    run: u128,
    row: u128,
    purpose: &[u8],
    bytes: &[u8],
) -> (sealed: Result<Sealed, CryptoError>)
    ensures
        sealed is Ok <==> aead_accepts(bytes@.len()),
        sealed matches Ok(s) ==> sealed_as(
            key@,
            snapshot_purpose(run, purpose@),
            org.0,
            row,
            1,
            bytes@,
            s.nonce@,
            s.ciphertext@,
        ),
{
    let p = snapshot_purpose_of(run, purpose);
    seal_purpose(key, p.as_slice(), org, row, 1, bytes)
}

pub fn open_history(
    key: &RawPayloadKey,
    org: OrganizationId,
    run: u128,
    row: u128,
    purpose: &[u8],
    nonce: &[u8],
    bytes: &[u8],
) -> (plaintext: Result<Vec<u8>, CryptoError>)
    ensures
        plaintext is Ok <==> opened(key@, snapshot_purpose(run, purpose@), org.0, row, 1, nonce@, bytes@) is Some,
        plaintext matches Ok(p) ==> opened(
            key@,
            snapshot_purpose(run, purpose@),
            org.0,
            row,
            1,
            nonce@,
            bytes@,
        ) == Some(p@),
{
    let p = snapshot_purpose_of(run, purpose);
    open_purpose(key, p.as_slice(), org, row, 1, nonce, bytes)
}

/// The lookup-key operation of a snapshot value: the tenant's debug
/// rendering `OrganizationId(<uuid>)` and the purpose.
pub open spec fn snapshot_operation(org: u128, purpose: Seq<u8>) -> Seq<u8> {
    "snapshot:OrganizationId(".spec_bytes() + uuid_text(org) + "):".spec_bytes() + purpose
}

/// Keyed lookup digest of a snapshot value, bound to tenant and purpose.
pub fn snapshot_hmac(key: &RawPayloadKey, org: OrganizationId, purpose: &str, bytes: &[u8]) -> (tag: [u8; 32])
    ensures
        tag@ == hmac_sha256(
            key@,
            request_message(snapshot_operation(org.0, purpose.spec_bytes()), bytes@),
        ),
{
    snapshot_hmac_of(key, org, purpose.as_bytes(), bytes)
}

/// `snapshot_hmac` for a purpose given by its bytes.
pub fn snapshot_hmac_of(key: &RawPayloadKey, org: OrganizationId, purpose: &[u8], bytes: &[u8]) -> (tag: [u8; 32])
    ensures
        tag@ == hmac_sha256(key@, request_message(snapshot_operation(org.0, purpose@), bytes@)),
{
    let mut operation = Vec::new();
    push_all(&mut operation, "snapshot:OrganizationId(".as_bytes());
    let text = uuid_hyphenated(org.0);
    push_all(&mut operation, text.as_slice());
    push_all(&mut operation, "):".as_bytes());
    push_all(&mut operation, purpose);
    assert(operation@ =~= snapshot_operation(org.0, purpose@));
    request_digest_bytes(key, operation.as_slice(), bytes)
}

/// What a sealed payload gives back: opening with the same key and the same
/// purpose, tenant, row and revision returns exactly the sealed plaintext.
pub proof fn law_sealed_payload_opens(
    key: Seq<u8>,
    purpose: Seq<u8>,
    org: u128,
    row: u128,
    revision: i32,
    plaintext: Seq<u8>,
    nonce: Seq<u8>,
    ciphertext: Seq<u8>,
)
    requires
        sealed_as(key, purpose, org, row, revision, plaintext, nonce, ciphertext),
    ensures
        opened(key, purpose, org, row, revision, nonce, ciphertext) == Some(plaintext),
{
}

proof fn lemma_be_u128_injective(x: u128, y: u128)
    requires
        be_u128(x) == be_u128(y),
    ensures
        x == y,
{
    assert(be_u128(x)[0] == be_u128(y)[0]);
    assert(be_u128(x)[0] == ((x >> 120u128) & 0xff) as u8 && be_u128(y)[0] == ((y >> 120u128) & 0xff) as u8);
    assert(be_u128(x)[1] == be_u128(y)[1]);
    assert(be_u128(x)[1] == ((x >> 112u128) & 0xff) as u8 && be_u128(y)[1] == ((y >> 112u128) & 0xff) as u8);
    assert(be_u128(x)[2] == be_u128(y)[2]);
    assert(be_u128(x)[2] == ((x >> 104u128) & 0xff) as u8 && be_u128(y)[2] == ((y >> 104u128) & 0xff) as u8);
    assert(be_u128(x)[3] == be_u128(y)[3]);
    assert(be_u128(x)[3] == ((x >> 96u128) & 0xff) as u8 && be_u128(y)[3] == ((y >> 96u128) & 0xff) as u8);
    assert(be_u128(x)[4] == be_u128(y)[4]);
    assert(be_u128(x)[4] == ((x >> 88u128) & 0xff) as u8 && be_u128(y)[4] == ((y >> 88u128) & 0xff) as u8);
    assert(be_u128(x)[5] == be_u128(y)[5]);
    assert(be_u128(x)[5] == ((x >> 80u128) & 0xff) as u8 && be_u128(y)[5] == ((y >> 80u128) & 0xff) as u8);
    assert(be_u128(x)[6] == be_u128(y)[6]);
    assert(be_u128(x)[6] == ((x >> 72u128) & 0xff) as u8 && be_u128(y)[6] == ((y >> 72u128) & 0xff) as u8);
    assert(be_u128(x)[7] == be_u128(y)[7]);
    assert(be_u128(x)[7] == ((x >> 64u128) & 0xff) as u8 && be_u128(y)[7] == ((y >> 64u128) & 0xff) as u8);
    assert(be_u128(x)[8] == be_u128(y)[8]);
    assert(be_u128(x)[8] == ((x >> 56u128) & 0xff) as u8 && be_u128(y)[8] == ((y >> 56u128) & 0xff) as u8);
    assert(be_u128(x)[9] == be_u128(y)[9]);
    assert(be_u128(x)[9] == ((x >> 48u128) & 0xff) as u8 && be_u128(y)[9] == ((y >> 48u128) & 0xff) as u8);
    assert(be_u128(x)[10] == be_u128(y)[10]);
    assert(be_u128(x)[10] == ((x >> 40u128) & 0xff) as u8 && be_u128(y)[10] == ((y >> 40u128) & 0xff) as u8);
    assert(be_u128(x)[11] == be_u128(y)[11]);
    assert(be_u128(x)[11] == ((x >> 32u128) & 0xff) as u8 && be_u128(y)[11] == ((y >> 32u128) & 0xff) as u8);
    assert(be_u128(x)[12] == be_u128(y)[12]);
    assert(be_u128(x)[12] == ((x >> 24u128) & 0xff) as u8 && be_u128(y)[12] == ((y >> 24u128) & 0xff) as u8);
    assert(be_u128(x)[13] == be_u128(y)[13]);
    assert(be_u128(x)[13] == ((x >> 16u128) & 0xff) as u8 && be_u128(y)[13] == ((y >> 16u128) & 0xff) as u8);
    assert(be_u128(x)[14] == be_u128(y)[14]);
    assert(be_u128(x)[14] == ((x >> 8u128) & 0xff) as u8 && be_u128(y)[14] == ((y >> 8u128) & 0xff) as u8);
    assert(be_u128(x)[15] == be_u128(y)[15]);
    assert(be_u128(x)[15] == ((x >> 0u128) & 0xff) as u8 && be_u128(y)[15] == ((y >> 0u128) & 0xff) as u8);
    assert(x == y) by (bit_vector)
        requires
            ((x >> 120u128) & 0xff) as u8 == ((y >> 120u128) & 0xff) as u8,
            ((x >> 112u128) & 0xff) as u8 == ((y >> 112u128) & 0xff) as u8,
            ((x >> 104u128) & 0xff) as u8 == ((y >> 104u128) & 0xff) as u8,
            ((x >> 96u128) & 0xff) as u8 == ((y >> 96u128) & 0xff) as u8,
            ((x >> 88u128) & 0xff) as u8 == ((y >> 88u128) & 0xff) as u8,
            ((x >> 80u128) & 0xff) as u8 == ((y >> 80u128) & 0xff) as u8,
            ((x >> 72u128) & 0xff) as u8 == ((y >> 72u128) & 0xff) as u8,
            ((x >> 64u128) & 0xff) as u8 == ((y >> 64u128) & 0xff) as u8,
            ((x >> 56u128) & 0xff) as u8 == ((y >> 56u128) & 0xff) as u8,
            ((x >> 48u128) & 0xff) as u8 == ((y >> 48u128) & 0xff) as u8,
            ((x >> 40u128) & 0xff) as u8 == ((y >> 40u128) & 0xff) as u8,
            ((x >> 32u128) & 0xff) as u8 == ((y >> 32u128) & 0xff) as u8,
            ((x >> 24u128) & 0xff) as u8 == ((y >> 24u128) & 0xff) as u8,
            ((x >> 16u128) & 0xff) as u8 == ((y >> 16u128) & 0xff) as u8,
            ((x >> 8u128) & 0xff) as u8 == ((y >> 8u128) & 0xff) as u8,
            ((x >> 0u128) & 0xff) as u8 == ((y >> 0u128) & 0xff) as u8,
    ;
}

proof fn lemma_be_i32_injective(x: i32, y: i32)
    requires
        be_i32(x) == be_i32(y),
    ensures
        x == y,
{
    assert(be_i32(x)[0] == be_i32(y)[0]);
    assert(be_i32(x)[0] == (((x as u32) >> 24u32) & 0xff) as u8 && be_i32(y)[0] == (((y as u32) >> 24u32) & 0xff) as u8);
    assert(be_i32(x)[1] == be_i32(y)[1]);
    assert(be_i32(x)[1] == (((x as u32) >> 16u32) & 0xff) as u8 && be_i32(y)[1] == (((y as u32) >> 16u32) & 0xff) as u8);
    assert(be_i32(x)[2] == be_i32(y)[2]);
    assert(be_i32(x)[2] == (((x as u32) >> 8u32) & 0xff) as u8 && be_i32(y)[2] == (((y as u32) >> 8u32) & 0xff) as u8);
    assert(be_i32(x)[3] == be_i32(y)[3]);
    assert(be_i32(x)[3] == (((x as u32) >> 0u32) & 0xff) as u8 && be_i32(y)[3] == (((y as u32) >> 0u32) & 0xff) as u8);
    let a = x as u32;
    let b = y as u32;
    assert(a == b) by (bit_vector)
        requires
            ((a >> 24u32) & 0xff) as u8 == ((b >> 24u32) & 0xff) as u8,
            ((a >> 16u32) & 0xff) as u8 == ((b >> 16u32) & 0xff) as u8,
            ((a >> 8u32) & 0xff) as u8 == ((b >> 8u32) & 0xff) as u8,
            ((a >> 0u32) & 0xff) as u8 == ((b >> 0u32) & 0xff) as u8,
    ;
    assert(x == y) by (bit_vector)
        requires
            x as u32 == y as u32,
    ;
}

/// Authenticated data binds the payload: under one purpose, two bindings give
/// the same authenticated data only if tenant, row and revision all agree.
pub proof fn law_aad_binds_tenant_row_and_revision(
    purpose: Seq<u8>,
    org1: u128,
    row1: u128,
    revision1: i32,
    org2: u128,
    row2: u128,
    revision2: i32,
)
    requires
        spec_aad(purpose, org1, row1, revision1) == spec_aad(purpose, org2, row2, revision2),
    ensures
        org1 == org2,
        row1 == row2,
        revision1 == revision2,
{
    let a = spec_aad(purpose, org1, row1, revision1);
    let b = spec_aad(purpose, org2, row2, revision2);
    let n: int = purpose.len() as int + 1;
    assert(be_u128(org1) =~= a.subrange(n, n + 16));
    assert(be_u128(org2) =~= b.subrange(n, n + 16));
    assert(be_u128(row1) =~= a.subrange(n + 16, n + 32));
    assert(be_u128(row2) =~= b.subrange(n + 16, n + 32));
    assert(be_i32(revision1) =~= a.subrange(n + 32, n + 36));
    assert(be_i32(revision2) =~= b.subrange(n + 32, n + 36));
    lemma_be_u128_injective(org1, org2);
    lemma_be_u128_injective(row1, row2);
    lemma_be_i32_injective(revision1, revision2);
}

} // verus!
