//! Indexing retained history captures: the global identity and canonical
//! digests of one source record, what its index row records, and the checks a
//! retained page must pass. Raw bodies stay in their encrypted capture.
use super::activity_delta::Instant;
use super::model::{bytes_equal, decimal_digits, decimal_text, Hold};
use crate::bytes::push_all;
use crate::crypto::{
    hmac_sha256, request_message, snapshot_hmac, snapshot_hmac_of, snapshot_operation,
    OrganizationId, RawPayloadKey,
};
use crate::error::MigrationError;
use vstd::prelude::*;
use vstd::string::StringSliceAdditionalSpecFns;

verus! {

/// A retained history stream.
#[derive(Debug, Clone, Copy, PartialEq, Eq, Structural)]
pub enum HistoryStream {
    Events,
    Calls,
    TextMessages,
}

pub open spec fn history_stream_name(s: HistoryStream) -> Seq<char> {
    match s {
        HistoryStream::Events => "events"@,
        HistoryStream::Calls => "calls"@,
        HistoryStream::TextMessages => "text_messages"@,
    }
}

pub open spec fn history_kind_name(s: HistoryStream) -> Seq<char> {
    match s {
        HistoryStream::Events => "event"@,
        HistoryStream::Calls => "call"@,
        HistoryStream::TextMessages => "text"@,
    }
}

impl HistoryStream {
    pub fn as_str(self) -> (name: &'static str)
        ensures
            name@ == history_stream_name(self),
    {
        match self {
            HistoryStream::Events => "events",
            HistoryStream::Calls => "calls",
            HistoryStream::TextMessages => "text_messages",
        }
    }

    /// The manifest kind of the stream's records.
    pub fn kind(self) -> (name: &'static str)
        ensures
            name@ == history_kind_name(self),
    {
        match self {
            HistoryStream::Events => "event",
            HistoryStream::Calls => "call",
            HistoryStream::TextMessages => "text",
        }
    }
}

/// Names the JSON text serde_json writes for the array
/// `[account, family, representation, source_id]`, if it writes one.
pub uninterp spec fn identity_json(
    account: i64,
    family: Seq<char>,
    representation: Seq<char>,
    source_id: Seq<char>,
) -> Option<Seq<u8>>;

/// Calls `serde_json::to_vec` on the tuple `(account, family, representation,
/// source_id)`. The contract only names the result.
#[verifier::external_body]
fn write_identity_json(account: i64, family: &str, representation: &str, source_id: &str) -> (bytes:
    Option<Vec<u8>>)
    ensures
        match bytes {
            Some(b) => identity_json(account, family@, representation@, source_id@) == Some(b@),
            None => identity_json(account, family@, representation@, source_id@) is None,
        },
{
    serde_json::to_vec(&(account, family, representation, source_id)).ok()
}

/// One record of a parsed capture page.
#[derive(Debug, Clone)]
pub struct CaptureRecord {
    pub source_id: Option<String>,
    pub primary_person_id: Option<String>,
    pub relationship_uncertain: bool,
    pub person_refs: Vec<String>,
    /// The record's canonical bytes.
    pub canonical: Vec<u8>,
}

/// What the history import interpreter reads from a record: its creation time
/// and its display metadata (JSON text).
#[derive(Debug, Clone)]
pub struct Imported {
    pub created: Option<Instant>,
    pub metadata: Vec<u8>,
}

/// The authenticated evidence of one history record.
#[derive(Debug, Clone)]
pub struct Interpreted {
    pub identity_hmac: [u8; 32],
    pub semantic_hmac: [u8; 32],
    pub source_person: String,
    pub created: Option<Instant>,
    pub metadata: Vec<u8>,
}

pub struct InterpretedView {
    pub identity_hmac: Seq<u8>,
    pub semantic_hmac: Seq<u8>,
    pub source_person: Seq<char>,
    pub created: Option<Instant>,
    pub metadata: Seq<u8>,
}

impl Interpreted {
    pub open spec fn view(self) -> InterpretedView {
        InterpretedView {
            identity_hmac: self.identity_hmac@,
            semantic_hmac: self.semantic_hmac@,
            source_person: self.source_person@,
            created: self.created,
            metadata: self.metadata@,
        }
    }
}

pub open spec fn interpreted_view(r: Result<Interpreted, Hold>) -> Result<InterpretedView, Hold> {
    match r {
        Ok(i) => Ok(i.view()),
        Err(h) => Err(h),
    }
}

/// The purpose of a record's canonical digest.
pub open spec fn semantic_purpose(account: i64, family: Seq<char>, representation: Seq<char>) -> Seq<u8> {
    "timeline-import-canonical-v1:".spec_bytes() + decimal_digits(account as nat) + seq![58u8]
        + vstd::utf8::encode_utf8(family) + seq![58u8] + vstd::utf8::encode_utf8(representation)
}

/// The single person a record is about, if its references agree.
pub open spec fn sole_person(r: CaptureRecord) -> Option<Seq<char>> {
    match r.primary_person_id {
        Some(p) => if !r.relationship_uncertain && r.person_refs@.len() == 1 && r.person_refs@[0]@
            == p@ {
            Some(p@)
        } else {
            None
        },
        None => None,
    }
}

/// The evidence of a record of `stream` (with representation label
/// `representation`) captured for `account` by `access_user`, given what the
/// import interpreter read (`imported`).
pub open spec fn interpret_result(
    key: Seq<u8>,
    org: u128,
    account: i64,
    access_user: i64,
    stream: HistoryStream,
    representation: Seq<char>,
    record: CaptureRecord,
    imported: Result<Imported, MigrationError>,
) -> Result<InterpretedView, Hold> {
    if account <= 0 || access_user <= 0 {
        Err(Hold::UnsupportedSource)
    } else {
        match record.source_id {
            None => Err(Hold::UnsupportedSource),
            Some(source_id) => match sole_person(record) {
                None => Err(Hold::IdentityMismatch),
                Some(person) => match identity_json(
                    account,
                    history_stream_name(stream),
                    representation,
                    source_id@,
                ) {
                    None => Err(Hold::UnsupportedSource),
                    Some(j) => match imported {
                        Err(MigrationError::StorageLimit) => Err(Hold::UnitTooLarge),
                        Err(_) => Err(Hold::UnsupportedSource),
                        Ok(i) => Ok(
                            InterpretedView {
                                identity_hmac: hmac_sha256(
                                    key,
                                    request_message(
                                        snapshot_operation(org, "timeline-import-identity-v1".spec_bytes()),
                                        j,
                                    ),
                                ),
                                semantic_hmac: hmac_sha256(
                                    key,
                                    request_message(
                                        snapshot_operation(
                                            org,
                                            semantic_purpose(account, history_stream_name(stream), representation),
                                        ),
                                        record.canonical@,
                                    ),
                                ),
                                source_person: person,
                                created: i.created,
                                metadata: i.metadata@,
                            },
                        ),
                    },
                },
            },
        }
    }
}

fn sole_person_of(record: &CaptureRecord) -> (p: Option<String>)
    ensures
        match p {
            Some(s) => sole_person(*record) == Some(s@),
            None => sole_person(*record) is None,
        },
{
    match &record.primary_person_id {
        Some(p) => {
            if !record.relationship_uncertain && record.person_refs.len() == 1
                && record.person_refs[0] == *p {
                Some(p.clone())
            } else {
                None
            }
        },
        None => None,
    }
}

/// Interprets one history record: its global identity digest (bound to the
/// account, stream, representation and source id) and its canonical digest,
/// with the single person it is about and what the import interpreter read.
pub fn interpret(
    key: &RawPayloadKey,
    org: OrganizationId,
    account: i64,
    access_user: i64,
    stream: HistoryStream,
    representation: &str,
    record: &CaptureRecord,
    imported: Result<Imported, MigrationError>,
) -> (r: Result<Interpreted, Hold>)
    ensures
        interpreted_view(r) == interpret_result(
            key@,
            org.0,
            account,
            access_user,
            stream,
            representation@,
            *record,
            imported,
        ),
{
    if account <= 0 || access_user <= 0 {
        return Err(Hold::UnsupportedSource);
    }
    let source_id = match &record.source_id {
        Some(s) => s,
        None => return Err(Hold::UnsupportedSource),
    };
    let person = match sole_person_of(record) {
        Some(p) => p,
        None => return Err(Hold::IdentityMismatch),
    };
    let family = stream.as_str();
    let identity_bytes = match write_identity_json(account, family, representation, source_id.as_str()) {
        Some(b) => b,
        None => return Err(Hold::UnsupportedSource),
    };
    let identity_hmac = snapshot_hmac(key, org, "timeline-import-identity-v1", identity_bytes.as_slice());
    let mut purpose: Vec<u8> = Vec::new();
    push_all(&mut purpose, "timeline-import-canonical-v1:".as_bytes());
    let digits = decimal_text(account as u64);
    push_all(&mut purpose, digits.as_slice());
    purpose.push(58u8);
    push_all(&mut purpose, family.as_bytes());
    purpose.push(58u8);
    push_all(&mut purpose, representation.as_bytes());
    assert(purpose@ =~= semantic_purpose(account, history_stream_name(stream), representation@));
    let semantic_hmac = snapshot_hmac_of(key, org, purpose.as_slice(), record.canonical.as_slice());
    match imported {
        Err(MigrationError::StorageLimit) => Err(Hold::UnitTooLarge),
        Err(_) => Err(Hold::UnsupportedSource),
        Ok(i) => Ok(
            Interpreted {
                identity_hmac,
                semantic_hmac,
                source_person: person,
                created: i.created,
                metadata: i.metadata,
            },
        ),
    }
}

/// What the index row of a record keeps: its evidence, unless the display
/// metadata is too large, and why it is held, if it is.
pub open spec fn record_outcome(accepted: bool, interpreted: Result<InterpretedView, Hold>) -> (
    Option<InterpretedView>,
    Option<Hold>,
) {
    match interpreted {
        Ok(e) => if e.metadata.len() <= 4096 {
            (
                Some(e),
                if accepted {
                    None
                } else {
                    Some(Hold::SourceUnavailable)
                },
            )
        } else {
            (None, Some(Hold::UnitTooLarge))
        },
        Err(h) => (None, Some(h)),
    }
}

pub open spec fn opt_interpreted(e: Option<Interpreted>) -> Option<InterpretedView> {
    match e {
        Some(x) => Some(x.view()),
        None => None,
    }
}

/// One indexing step: a record from an accepted (advancing) page keeps its
/// evidence; one from a diagnostic page is held as source-unavailable.
pub fn index_step(accepted: bool, interpreted: Result<Interpreted, Hold>) -> (r: (Option<Interpreted>, Option<Hold>))
    ensures
        (opt_interpreted(r.0), r.1) == record_outcome(accepted, interpreted_view(interpreted)),
{
    match interpreted {
        Ok(e) => {
            if e.metadata.len() <= 4096 {
                (
                    Some(e),
                    if accepted {
                        None
                    } else {
                        Some(Hold::SourceUnavailable)
                    },
                )
            } else {
                (None, Some(Hold::UnitTooLarge))
            }
        },
        Err(h) => (None, Some(h)),
    }
}

/// A page advances the index only when it was captured as advancing.
pub fn page_accepted(classification: &str) -> (accepted: bool)
    ensures
        accepted == (classification@ == "advancing"@),
{
    classification.to_owned() == "advancing".to_owned()
}

/// A page is parsed only when it was fetched whole, successfully, in the
/// stream's own representation.
pub fn parse_allowed(http_status: i32, truncated: bool, representation: &str, expected: &str) -> (allowed: bool)
    ensures
        allowed == (http_status == 200 && !truncated && representation@ == expected@),
{
    http_status == 200 && !truncated && representation.to_owned() == expected.to_owned()
}

/// An accepted page must parse, into exactly its recorded observations; a
/// diagnostic page has none.
pub open spec fn page_consistent(accepted: bool, parsed: Option<usize>, observations: usize) -> bool {
    if accepted {
        parsed == Some(observations)
    } else {
        observations == 0
    }
}

pub fn check_page(accepted: bool, parsed: Option<usize>, observations: usize) -> (r: Result<(), MigrationError>)
    ensures
        r is Ok <==> page_consistent(accepted, parsed, observations),
        r matches Err(e) ==> e == MigrationError::Crypto,
{
    let ok = if accepted {
        match parsed {
            Some(n) => n == observations,
            None => false,
        }
    } else {
        observations == 0
    };
    if ok {
        Ok(())
    } else {
        Err(MigrationError::Crypto)
    }
}

/// The observation row recorded at capture time for one record.
#[derive(Debug, Clone)]
pub struct ObservationRow {
    pub ordinal: i32,
    pub capture_sequence: i64,
    pub family: String,
    pub identity_hmac: Option<Vec<u8>>,
    pub primary_person_hmac: Option<Vec<u8>>,
    pub semantic_hmac: Vec<u8>,
}

pub open spec fn opt_seq(v: Option<Vec<u8>>) -> Option<Seq<u8>> {
    match v {
        Some(b) => Some(b@),
        None => None,
    }
}

/// The recorded observation is the record at `ordinal` of the page at
/// `sequence`, with the same capture digests (`identity`, `person`, `semantic`).
pub open spec fn observation_matches(
    row: ObservationRow,
    ordinal: usize,
    sequence: i64,
    stream: HistoryStream,
    identity: Option<Vec<u8>>,
    person: Option<Vec<u8>>,
    semantic: Seq<u8>,
) -> bool {
    &&& row.ordinal == ordinal as i32
    &&& row.capture_sequence == sequence
    &&& row.family@ == history_stream_name(stream)
    &&& opt_seq(row.identity_hmac) == opt_seq(identity)
    &&& opt_seq(row.primary_person_hmac) == opt_seq(person)
    &&& row.semantic_hmac@ == semantic
}

fn same_opt(a: &Option<Vec<u8>>, b: &Option<Vec<u8>>) -> (same: bool)
    ensures
        same == (opt_seq(*a) == opt_seq(*b)),
{
    match (a, b) {
        (Some(x), Some(y)) => bytes_equal(x.as_slice(), y.as_slice()),
        (None, None) => true,
        _ => false,
    }
}

pub fn check_observation(
    row: &ObservationRow,
    ordinal: usize,
    sequence: i64,
    stream: HistoryStream,
    identity: &Option<Vec<u8>>,
    person: &Option<Vec<u8>>,
    semantic: &[u8],
) -> (r: Result<(), MigrationError>)
    ensures
        r is Ok <==> observation_matches(*row, ordinal, sequence, stream, *identity, *person, semantic@),
        r matches Err(e) ==> e == MigrationError::Crypto,
{
    #[verifier::truncate]
    let ord = ordinal as i32;
    let ok = row.ordinal == ord && row.capture_sequence == sequence && row.family.as_str().to_owned()
        == stream.as_str().to_owned() && same_opt(&row.identity_hmac, identity) && same_opt(
        &row.primary_person_hmac,
        person,
    ) && bytes_equal(row.semantic_hmac.as_slice(), semantic);
    if ok {
        Ok(())
    } else {
        Err(MigrationError::Crypto)
    }
}

/// Where the indexing of a history plan stands: it indexes while capturing,
/// is finished once past that phase, and refuses other plans.
pub open spec fn index_phase_result(family: Seq<char>, phase: Seq<char>) -> Result<bool, MigrationError> {
    if family != "history"@ {
        Err(MigrationError::InvalidInput)
    } else if phase == "capture"@ {
        Ok(true)
    } else if phase == "mappings"@ || phase == "classify"@ || phase == "apply"@ || phase == "finished"@ {
        Ok(false)
    } else {
        Err(MigrationError::Conflict)
    }
}

fn is_word(s: &str, w: &str) -> (same: bool)
    ensures
        same == (s@ == w@),
{
    s.to_owned() == w.to_owned()
}

/// `Ok(true)` to index a page, `Ok(false)` when indexing is already finished.
pub fn index_phase(family: &str, phase: &str) -> (r: Result<bool, MigrationError>)
    ensures
        r == index_phase_result(family@, phase@),
{
    if !is_word(family, "history") {
        Err(MigrationError::InvalidInput)
    } else if is_word(phase, "capture") {
        Ok(true)
    } else if is_word(phase, "mappings") || is_word(phase, "classify") || is_word(phase, "apply")
        || is_word(phase, "finished") {
        Ok(false)
    } else {
        Err(MigrationError::Conflict)
    }
}

} // verus!
