//! Bounded encrypted evidence. Tenant, bundle, plan, row and purpose are all
//! authenticated; successful decryption never grants business authorization.
use super::model::{decimal_digits, decimal_text, family_name, Family, ENGINE};
use crate::bytes::{push_all, uuid_hyphenated, uuid_text};
use crate::crypto::{
    open_history, opened, seal_history, sealed_as, snapshot_purpose,
    OrganizationId, RawPayloadKey, Sealed,
};
use crate::error::MigrationError;
use vstd::prelude::*;
use vstd::string::StringSliceAdditionalSpecFns;
use vstd::utf8::encode_utf8;

verus! {

#[derive(Debug, Clone, Copy, PartialEq, Eq, Structural)]
pub enum Purpose {
    Binding,
    Source,
    Mapping,
    Manifest,
    Result,
    HistoryDisplay,
    Receipt,
}

pub open spec fn purpose_label(purpose: Purpose) -> Seq<char> {
    match purpose {
        Purpose::Binding => "binding"@,
        Purpose::Source => "source"@,
        Purpose::Mapping => "mapping"@,
        Purpose::Manifest => "manifest"@,
        Purpose::Result => "result"@,
        Purpose::HistoryDisplay => "history-display"@,
        Purpose::Receipt => "receipt"@,
    }
}

pub open spec fn purpose_limit(purpose: Purpose) -> nat {
    match purpose {
        Purpose::Binding | Purpose::Mapping | Purpose::Receipt => 64 * 1024,
        Purpose::Source => 4 * 1024 * 1024,
        Purpose::Manifest | Purpose::Result => 64 * 1024 * 1024,
        Purpose::HistoryDisplay => 4096,
    }
}

impl Purpose {
    pub fn label(self) -> (label: &'static str)
        ensures
            label@ == purpose_label(self),
    {
        match self {
            Purpose::Binding => "binding",
            Purpose::Source => "source",
            Purpose::Mapping => "mapping",
            Purpose::Manifest => "manifest",
            Purpose::Result => "result",
            Purpose::HistoryDisplay => "history-display",
            Purpose::Receipt => "receipt",
        }
    }

    /// Largest serialized payload of this purpose, in bytes.
    pub fn limit(self) -> (limit: usize)
        ensures
            limit == purpose_limit(self),
    {
        match self {
            Purpose::Binding | Purpose::Mapping | Purpose::Receipt => 64 * 1024,
            Purpose::Source => 4 * 1024 * 1024,
            Purpose::Manifest | Purpose::Result => 64 * 1024 * 1024,
            Purpose::HistoryDisplay => 4096,
        }
    }
}

#[derive(Debug, Clone, Copy, PartialEq, Eq, Structural)]
pub struct Scope {
    pub organization: OrganizationId,
    pub bundle: u128,
    pub plan: u128,
    pub family: Family,
    pub revision: i64,
}

/// A scope may seal a purpose only at a positive plan revision, and history
/// display evidence only within the history family.
pub open spec fn scope_admits(scope: Scope, purpose: Purpose) -> bool {
    scope.revision > 0 && !(purpose == Purpose::HistoryDisplay && scope.family != Family::History)
}

/// `ENGINE:plan:family:revision:label`, the authenticated purpose of a scope.
pub open spec fn scope_purpose(scope: Scope, purpose: Purpose) -> Seq<u8> {
    ENGINE.spec_bytes() + seq![58u8] + uuid_text(scope.plan) + seq![58u8] + encode_utf8(
        family_name(scope.family),
    ) + seq![58u8] + decimal_digits(scope.revision as nat) + seq![58u8] + encode_utf8(
        purpose_label(purpose),
    )
}

/// What opening evidence of `purpose` in `scope` for `row` returns.
pub open spec fn evidence_opened(
    key: Seq<u8>,
    scope: Scope,
    row: u128,
    purpose: Purpose,
    nonce: Seq<u8>,
    ciphertext: Seq<u8>,
) -> Option<Seq<u8>> {
    opened(
        key,
        snapshot_purpose(scope.bundle, scope_purpose(scope, purpose)),
        scope.organization.0,
        row,
        1,
        nonce,
        ciphertext,
    )
}

/// Whether a ciphertext is within the envelope bounds of a purpose.
pub open spec fn envelope_fits(purpose: Purpose, nonce_len: nat, ciphertext_len: nat) -> bool {
    nonce_len == 24 && 16 <= ciphertext_len <= purpose_limit(purpose) + 16
}

impl Scope {
    /// The authenticated purpose text of this scope.
    pub fn purpose(self, purpose: Purpose) -> (text: Result<Vec<u8>, MigrationError>)
        ensures
            text is Ok <==> scope_admits(self, purpose),
            text matches Ok(t) ==> t@ == scope_purpose(self, purpose),
            text matches Err(e) ==> e == MigrationError::Crypto,
    {
        if self.revision <= 0 || (purpose == Purpose::HistoryDisplay && self.family
            != Family::History) {
            return Err(MigrationError::Crypto);
        }
        let mut text = Vec::new();
        push_all(&mut text, ENGINE.as_bytes());
        text.push(58);
        let plan = uuid_hyphenated(self.plan);
        push_all(&mut text, plan.as_slice());
        text.push(58);
        push_all(&mut text, self.family.as_str().as_bytes());
        text.push(58);
        let revision = decimal_text(self.revision as u64);
        push_all(&mut text, revision.as_slice());
        text.push(58);
        push_all(&mut text, purpose.label().as_bytes());
        assert(text@ =~= scope_purpose(self, purpose));
        Ok(text)
    }

    /// Seals an already serialized payload; oversized payloads are refused
    /// before anything is encrypted.
    pub fn seal(self, key: &RawPayloadKey, row: u128, purpose: Purpose, payload: &[u8]) -> (sealed: Result<Sealed, MigrationError>)
        ensures
            sealed matches Err(e) ==> (e == MigrationError::StorageLimit <==> payload@.len()
                > purpose_limit(purpose)),
            sealed is Ok <==> (payload@.len() <= purpose_limit(purpose) && scope_admits(self, purpose)),
            sealed matches Ok(s) ==> sealed_as(
                key@,
                snapshot_purpose(self.bundle, scope_purpose(self, purpose)),
                self.organization.0,
                row,
                1,
                payload@,
                s.nonce@,
                s.ciphertext@,
            ),
    {
        if payload.len() > purpose.limit() {
            return Err(MigrationError::StorageLimit);
        }
        let text = match self.purpose(purpose) {
            Ok(t) => t,
            Err(e) => return Err(e),
        };
        match seal_history(key, self.organization, self.bundle, row, text.as_slice(), payload) {
            Ok(s) => Ok(s),
            Err(_) => Err(MigrationError::Crypto),
        }
    }

    /// Opens evidence after checking the envelope bounds of the purpose; the
    /// caller deserializes the returned payload.
    pub fn open(
        self,
        key: &RawPayloadKey,
        row: u128,
        purpose: Purpose,
        nonce: &[u8],
        ciphertext: &[u8],
    ) -> (payload: Result<Vec<u8>, MigrationError>)
        ensures
            payload is Ok <==> (envelope_fits(purpose, nonce@.len(), ciphertext@.len())
                && scope_admits(self, purpose) && evidence_opened(
                key@,
                self,
                row,
                purpose,
                nonce@,
                ciphertext@,
            ) is Some),
            payload matches Ok(p) ==> evidence_opened(key@, self, row, purpose, nonce@, ciphertext@)
                == Some(p@),
            payload matches Err(e) ==> e == MigrationError::Crypto,
    {
        if nonce.len() != 24 || ciphertext.len() < 16 || ciphertext.len() > purpose.limit() + 16 {
            return Err(MigrationError::Crypto);
        }
        let text = match self.purpose(purpose) {
            Ok(t) => t,
            Err(e) => return Err(e),
        };
        match open_history(
            key,
            self.organization,
            self.bundle,
            row,
            text.as_slice(),
            nonce,
            ciphertext,
        ) {
            Ok(p) => Ok(p),
            Err(_) => Err(MigrationError::Crypto),
        }
    }
}

/// Evidence sealed in a scope opens in that scope, for that row and purpose,
/// to exactly the sealed payload.
pub proof fn law_evidence_round_trip(
    key: Seq<u8>,
    scope: Scope,
    row: u128,
    purpose: Purpose,
    payload: Seq<u8>,
    nonce: Seq<u8>,
    ciphertext: Seq<u8>,
)
    requires
        payload.len() <= purpose_limit(purpose),
        sealed_as(
            key,
            snapshot_purpose(scope.bundle, scope_purpose(scope, purpose)),
            scope.organization.0,
            row,
            1,
            payload,
            nonce,
            ciphertext,
        ),
    ensures
        envelope_fits(purpose, nonce.len(), ciphertext.len()),
        evidence_opened(key, scope, row, purpose, nonce, ciphertext) == Some(payload),
{
}

/// A serialization sink that refuses to grow beyond its limit, so a hostile
/// retained value never causes an unbounded allocation before the size check.
pub struct BoundedBuffer {
    bytes: Vec<u8>,
    limit: usize,
}

impl View for BoundedBuffer {
    type V = (Seq<u8>, nat);

    closed spec fn view(&self) -> (Seq<u8>, nat) {
        (self.bytes@, self.limit as nat)
    }
}

impl BoundedBuffer {
    #[verifier::type_invariant]
    spec fn within_limit(self) -> bool {
        self.bytes@.len() <= self.limit
    }

    pub fn new(limit: usize) -> (buffer: Self)
        ensures
            buffer@ == (Seq::<u8>::empty(), limit as nat),
    {
        BoundedBuffer { bytes: Vec::new(), limit }
    }

    /// Accepts a chunk only if the whole chunk still fits the limit.
    pub fn write(&mut self, chunk: &[u8]) -> (written: Result<usize, MigrationError>)
        ensures
            old(self)@.0.len() + chunk@.len() <= old(self)@.1 ==> written == Ok::<
                usize,
                MigrationError,
            >(chunk@.len() as usize) && final(self)@ == (old(self)@.0 + chunk@, old(self)@.1),
            old(self)@.0.len() + chunk@.len() > old(self)@.1 ==> written == Err::<
                usize,
                MigrationError,
            >(MigrationError::StorageLimit) && final(self)@ == old(self)@,
    {
        proof {
            use_type_invariant(&*self);
        }
        let room = self.limit - self.bytes.len();
        if chunk.len() > room {
            return Err(MigrationError::StorageLimit);
        }
        let mut bytes = Vec::new();
        std::mem::swap(&mut bytes, &mut self.bytes);
        push_all(&mut bytes, chunk);
        self.bytes = bytes;
        Ok(chunk.len())
    }

    pub fn flush(&mut self) -> (flushed: Result<(), MigrationError>)
        ensures
            flushed is Ok,
            final(self)@ == old(self)@,
    {
        Ok(())
    }

    pub fn into_bytes(self) -> (bytes: Vec<u8>)
        ensures
            bytes@ == self@.0,
    {
        self.bytes
    }
}

} // verus!
