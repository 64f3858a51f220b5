//! Prior-refresh after-state is authenticated in its original result scope.
//! A present but unusable head never falls back to an older first-import result.
use super::activity_baseline::{doc_field, read_i64, value_i64};
use super::activity_delta::{
    get, id_val, id_value, literal, name, present, value_equal, Doc, DocView, Value, ValueView,
};
use super::metadata_baseline::verify_ownership;
use super::metadata_delta::{aliases_shared, ownership_within, Ownership, Snapshot};
use super::model::{decimal_digits, decimal_text, Baseline, Hold, Kind, Native};
use crate::bytes::push_all;
use crate::crypto::OrganizationId;
use vstd::prelude::*;
use vstd::string::StringSliceAdditionalSpecFns;

verus! {

/// The native state a successful refresh unit left behind.
pub enum State {
    Metadata { snapshot: Snapshot, ownership: Ownership },
    Note { native: Doc, owned: bool },
    Task { native: Doc, owned: bool },
}

impl State {
    pub fn kind(&self) -> (kind: Kind)
        ensures
            kind == (match self {
                State::Metadata { .. } => Kind::Metadata,
                State::Note { .. } => Kind::Note,
                State::Task { .. } => Kind::Task,
            }),
    {
        match self {
            State::Metadata { .. } => Kind::Metadata,
            State::Note { .. } => Kind::Note,
            State::Task { .. } => Kind::Task,
        }
    }
}

/// Produced only by a successful refresh unit, after reading its committed
/// native state under the unit locks. Scope AEAD binds Org/bundle/plan/result.
pub struct AfterState {
    pub version: u8,
    pub manifest: u128,
    pub source_id: String,
    pub person: u128,
    pub target: u128,
    pub state: State,
}

/// A prior successful refresh result and its authenticated after-state.
pub struct Proven {
    pub result: u128,
    pub revision: i64,
    pub snapshot: u128,
    pub sequence: i64,
    pub proof: AfterState,
}

/// Decimal text of a signed 64-bit integer.
pub open spec fn signed_decimal(a: i64) -> Seq<u8> {
    if a < 0 {
        seq![45u8] + decimal_digits((-a) as nat)
    } else {
        decimal_digits(a as nat)
    }
}

/// The native source key of a retained activity: `v1:{account}:{source id}`.
pub open spec fn source_key(account: i64, source_id: String) -> Seq<u8> {
    "v1:".spec_bytes() + signed_decimal(account) + ":".spec_bytes() + vstd::utf8::encode_utf8(
        source_id@,
    )
}

fn source_key_bytes(account: i64, source_id: &String) -> (key: Vec<u8>)
    ensures
        key@ == source_key(account, *source_id),
{
    let mut key: Vec<u8> = Vec::new();
    push_all(&mut key, "v1:".as_bytes());
    if account < 0 {
        key.push(45u8);
        let magnitude: u64 = if account == i64::MIN {
            9223372036854775808u64
        } else {
            (-account) as u64
        };
        let digits = decimal_text(magnitude);
        push_all(&mut key, digits.as_slice());
    } else {
        let digits = decimal_text(account as u64);
        push_all(&mut key, digits.as_slice());
    }
    push_all(&mut key, ":".as_bytes());
    push_all(&mut key, source_id.as_str().as_bytes());
    assert(key@ =~= source_key(account, *source_id));
    key
}

/// The stored activity state proves the migration-owned row of this result.
pub open spec fn activity_proof_valid(proven: Proven, organization: OrganizationId, account: i64) -> bool {
    match proven.proof.state {
        State::Note { native, owned } | State::Task { native, owned } => {
            let row = native@;
            &&& owned
            &&& row is Object
            &&& doc_field(row, "id") == id_value(proven.proof.target)
            &&& doc_field(row, "person_id") == id_value(proven.proof.person)
            &&& doc_field(row, "organization_id") == id_value(organization.0)
            &&& value_i64(doc_field(row, "revision")) == Some(proven.revision)
            &&& proven.revision > 0
            &&& doc_field(row, "origin") == ValueView::Text(name("migration"))
            &&& doc_field(row, "source") == ValueView::Text(name("fub"))
            &&& doc_field(row, "source_external_id") == ValueView::Text(
                source_key(account, proven.proof.source_id),
            )
            &&& row->Object_0.contains_key(name("deleted_at")) && row->Object_0[name("deleted_at")]
                == ValueView::Null
            &&& row->Object_0.contains_key(name("deleted_by_user_id")) && row->Object_0[name(
                "deleted_by_user_id",
            )] == ValueView::Null
        },
        State::Metadata { .. } => false,
    }
}

pub open spec fn proven_native(proven: Proven) -> DocView {
    match proven.proof.state {
        State::Note { native, .. } | State::Task { native, .. } => native@,
        State::Metadata { .. } => DocView::Scalar(ValueView::Null),
    }
}

/// Why a prior activity proof is not the baseline of the current row, if it is.
pub open spec fn activity_hold(proven: Proven, organization: OrganizationId, account: i64, current: Option<DocView>) -> Option<Hold> {
    if !activity_proof_valid(proven, organization, account) {
        Some(Hold::BaselineUnproven)
    } else {
        let native = proven_native(proven);
        match current {
            None => Some(Hold::TargetErased),
            Some(c) => if doc_field(c, "deleted_at") != ValueView::Null {
                Some(Hold::TargetErased)
            } else if doc_field(c, "person_id") != doc_field(native, "person_id") || doc_field(c, "id")
                != doc_field(native, "id") {
                Some(Hold::IdentityMismatch)
            } else if c != native {
                Some(Hold::LocalChange)
            } else {
                None
            },
        }
    }
}

fn doc_value(d: &Doc, key: &str) -> (v: Value)
    requires
        d.wf(),
    ensures
        v@ == doc_field(d@, key),
{
    match d {
        Doc::Object(fields) => super::activity_delta::get(fields, key),
        Doc::Scalar(_) => Value::Null,
    }
}

fn activity_valid(proven: &Proven, organization: OrganizationId, account: i64) -> (ok: bool)
    requires
        match proven.proof.state {
            State::Note { native, .. } | State::Task { native, .. } => native.wf(),
            State::Metadata { .. } => true,
        },
    ensures
        ok == activity_proof_valid(*proven, organization, account),
{
    let (native, owned) = match &proven.proof.state {
        State::Note { native, owned } => (native, *owned),
        State::Task { native, owned } => (native, *owned),
        State::Metadata { .. } => {
            return false;
        },
    };
    let fields = match native {
        Doc::Object(f) => f,
        Doc::Scalar(_) => {
            return false;
        },
    };
    let key = source_key_bytes(account, &proven.proof.source_id);
    let revision_matches = match read_i64(&get(fields, "revision")) {
        Some(r) => r == proven.revision,
        None => false,
    };
    owned && value_equal(&get(fields, "id"), &id_val(proven.proof.target)) && value_equal(
        &get(fields, "person_id"),
        &id_val(proven.proof.person),
    ) && value_equal(&get(fields, "organization_id"), &id_val(organization.0)) && revision_matches
        && proven.revision > 0 && value_equal(&get(fields, "origin"), &literal("migration"))
        && value_equal(&get(fields, "source"), &literal("fub")) && value_equal(
        &get(fields, "source_external_id"),
        &Value::Text(key),
    ) && present(fields, "deleted_at") && value_equal(&get(fields, "deleted_at"), &Value::Null)
        && present(fields, "deleted_by_user_id") && value_equal(
        &get(fields, "deleted_by_user_id"),
        &Value::Null,
    )
}

/// The baseline of an activity from the prior refresh result that owns it:
/// the current row must be exactly the proven after-state.
pub fn verify_activity(
    proven: Proven,
    organization: OrganizationId,
    account: i64,
    current: Option<&Doc>,
) -> (r: Result<Baseline<Doc>, Hold>)
    requires
        match proven.proof.state {
            State::Note { native, .. } | State::Task { native, .. } => native.wf(),
            State::Metadata { .. } => true,
        },
        current matches Some(c) ==> c.wf(),
    ensures
        match activity_hold(proven, organization, account, match current {
            Some(c) => Some(c@),
            None => None,
        }) {
            Some(h) => r == Err::<Baseline<Doc>, Hold>(h),
            None => r matches Ok(b) && b.result_id == proven.result && b.person_id == proven.proof.person
                && b.target_id == proven.proof.target && b.revision == proven.revision && b.native@
                == proven_native(proven) && b.owned && b.head_id == Some(proven.result),
        },
{
    if !activity_valid(&proven, organization, account) {
        return Err(Hold::BaselineUnproven);
    }
    let Proven { result, revision, snapshot: _, sequence: _, proof } = proven;
    let AfterState { version: _, manifest: _, source_id: _, person, target, state } = proof;
    let native = match state {
        State::Note { native, .. } => native,
        State::Task { native, .. } => native,
        State::Metadata { .. } => {
            return Err(Hold::BaselineUnproven);
        },
    };
    let c = match current {
        None => {
            return Err(Hold::TargetErased);
        },
        Some(c) => c,
    };
    if !value_equal(&doc_value(c, "deleted_at"), &Value::Null) {
        return Err(Hold::TargetErased);
    }
    if !value_equal(&doc_value(c, "person_id"), &doc_value(&native, "person_id"))
        || !value_equal(&doc_value(c, "id"), &doc_value(&native, "id")) {
        return Err(Hold::IdentityMismatch);
    }
    if !c.same(&native) {
        return Err(Hold::LocalChange);
    }
    Ok(
        Baseline {
            result_id: result,
            person_id: person,
            target_id: target,
            revision,
            native,
            owned: true,
            head_id: Some(result),
        },
    )
}

/// Why a prior metadata proof is not the baseline of the current Person, if it is.
pub open spec fn metadata_hold(proven: Proven, current: Snapshot) -> Option<Hold> {
    match proven.proof.state {
        State::Metadata { snapshot, ownership } => if proven.proof.target != proven.proof.person
            || snapshot.person != proven.proof.person || snapshot.revision != proven.revision
            || proven.revision <= 0 || snapshot.head != Some(proven.result) {
            Some(Hold::BaselineUnproven)
        } else if current.person != snapshot.person {
            Some(Hold::IdentityMismatch)
        } else if current.head != snapshot.head {
            Some(Hold::StaleHead)
        } else if current.revision != snapshot.revision || !current.state.same_as(&snapshot.state) {
            Some(Hold::LocalChange)
        } else if !ownership_within(snapshot.state, ownership) || aliases_shared(ownership) {
            Some(Hold::BaselineUnproven)
        } else {
            None
        },
        _ => Some(Hold::BaselineUnproven),
    }
}

/// The metadata baseline and ownership of a prior refresh result whose
/// after-state is still the current Person.
pub fn verify_metadata(proven: &Proven, current: &Snapshot) -> (r: Result<(Snapshot, Ownership), Hold>)
    requires
        current.state.wf(),
        proven.proof.state matches State::Metadata { snapshot, ownership } ==> snapshot.state.wf()
            && ownership.wf(),
    ensures
        match metadata_hold(*proven, *current) {
            Some(h) => r == Err::<(Snapshot, Ownership), Hold>(h),
            None => r matches Ok((s, o)) && proven.proof.state matches State::Metadata {
                snapshot,
                ownership,
            } && s.person == snapshot.person && s.revision == snapshot.revision && s.head
                == snapshot.head && s.state.tags@ == snapshot.state.tags@ && s.state.field_values()
                == snapshot.state.field_values() && o.tag_support() == ownership.tag_support()
                && o.fields@ == ownership.fields@,
        },
{
    let (snapshot, ownership) = match &proven.proof.state {
        State::Metadata { snapshot, ownership } => (snapshot, ownership),
        _ => {
            return Err(Hold::BaselineUnproven);
        },
    };
    let same_head = match (current.head, snapshot.head) {
        (Some(a), Some(b)) => a == b,
        (None, None) => true,
        _ => false,
    };
    let proven_head = match snapshot.head {
        Some(h) => h == proven.result,
        None => false,
    };
    if proven.proof.target != proven.proof.person || snapshot.person != proven.proof.person
        || snapshot.revision != proven.revision || proven.revision <= 0 || !proven_head {
        return Err(Hold::BaselineUnproven);
    }
    if current.person != snapshot.person {
        return Err(Hold::IdentityMismatch);
    }
    if !same_head {
        return Err(Hold::StaleHead);
    }
    if current.revision != snapshot.revision || !current.state.matches(&snapshot.state) {
        return Err(Hold::LocalChange);
    }
    match verify_ownership(snapshot, ownership) {
        Err(h) => {
            return Err(h);
        },
        Ok(()) => {},
    }
    Ok((snapshot.copy(), ownership.copy()))
}

} // verus!
