//! Explicit after-state evidence for new first-family activity results. Legacy
//! results without this proof remain unproven; mutable rows never supply B.
use super::activity_delta::{
    copy_bytes, copy_object, field, get, id_val, id_value, literal, name, present, string_val,
    string_value, value_equal, Doc, DocView, Value, ValueView,
};
use super::model::{compare_native, native_outcome, Baseline, Current, Hold, Outcome};
use crate::bytes::uuid_text;
use crate::crypto::OrganizationId;
use crate::error::MigrationError;
use vstd::prelude::*;

verus! {

/// The native row of a new activity, captured right after its insertion.
pub struct AfterState {
    pub version: u8,
    pub native: Doc,
}

/// The value of a named field of a document (null for a non-object).
pub open spec fn doc_field(d: DocView, k: &str) -> ValueView {
    match d {
        DocView::Object(m) => field(m, k),
        DocView::Scalar(_) => ValueView::Null,
    }
}

fn doc_get(d: &Doc, key: &str) -> (v: Value)
    requires
        d.wf(),
    ensures
        v@ == doc_field(d@, key),
{
    match d {
        Doc::Object(fields) => get(fields, key),
        Doc::Scalar(_) => Value::Null,
    }
}

/// A freshly inserted row qualifies as after-state evidence: revision one,
/// migration origin, the source, and not deleted.
pub open spec fn capturable(native: DocView) -> bool {
    &&& doc_field(native, "revision") == ValueView::Number(name("1"))
    &&& doc_field(native, "origin") == ValueView::Text(name("migration"))
    &&& doc_field(native, "source") == ValueView::Text(name("fub"))
    &&& doc_field(native, "deleted_at") == ValueView::Null
}

impl AfterState {
    /// The after-state of a row the first import has just inserted.
    pub fn captured(native: Doc) -> (r: Result<AfterState, MigrationError>)
        requires
            native.wf(),
        ensures
            match r {
                Ok(a) => capturable(native@) && a.version == 1 && a.native == native,
                Err(e) => !capturable(native@) && e == MigrationError::SourceNotEligible,
            },
    {
        let one = Value::Number(copy_bytes("1".as_bytes()));
        if !value_equal(&doc_get(&native, "revision"), &one) || !value_equal(
            &doc_get(&native, "origin"),
            &literal("migration"),
        ) || !value_equal(&doc_get(&native, "source"), &literal("fub")) || !value_equal(
            &doc_get(&native, "deleted_at"),
            &Value::Null,
        ) {
            return Err(MigrationError::SourceNotEligible);
        }
        Ok(AfterState { version: 1, native })
    }
}

/// Trusted relational binding from the immutable global identity, successful
/// result and frozen manifest. Never deserialize it from a request or model.
pub struct Binding {
    pub organization: OrganizationId,
    pub person: u128,
    pub target: u128,
    pub result: u128,
    pub first_import: u128,
    pub native_source_key: String,
}

/// The UUID the `uuid` crate reads from text, if it reads one.
pub uninterp spec fn uuid_parsed(text: Seq<u8>) -> Option<u128>;

/// Reads a UUID with `uuid::Uuid::try_parse_ascii`, the parser behind
/// `Uuid::parse_str`. The contract names the result and states one fact of
/// it: the hyphenated lower-case text of a UUID reads back as that UUID (the
/// parser takes 36 bytes with hyphens after hex digits 8, 12, 16 and 20, and
/// the value is big-endian). The other accepted forms (simple, braced, URN,
/// upper-case digits) are left to the name.
#[verifier::external_body]
fn parse_uuid(text: &[u8]) -> (id: Option<u128>)
    ensures
        id == uuid_parsed(text@),
        forall|x: u128| #[trigger] uuid_text(x) == text@ ==> id == Some(x),
{
    uuid::Uuid::try_parse_ascii(text).ok().map(|u| u.as_u128())
}

/// The signed 64-bit value of JSON number text, when it is an integer in
/// range: an optional minus sign and decimal digits.
pub open spec fn json_i64(s: Seq<u8>) -> Option<i64> {
    let negative = s.len() > 0 && s[0] == 45;
    let d = if negative {
        s.drop_first()
    } else {
        s
    };
    if d.len() == 0 || !crate::core_change_worker::all_digits(d) {
        None
    } else {
        let v = super::model::digits_value(d);
        if negative && v <= 9223372036854775808 {
            Some((-v) as i64)
        } else if !negative && v <= i64::MAX {
            Some(v as i64)
        } else {
            None
        }
    }
}

/// The JSON integer a value holds, as `serde_json::Value::as_i64` reads it.
pub open spec fn value_i64(v: ValueView) -> Option<i64> {
    match v {
        ValueView::Number(t) => json_i64(t),
        _ => None,
    }
}

pub(crate) fn read_i64(v: &Value) -> (r: Option<i64>)
    ensures
        r == value_i64(v@),
{
    match v {
        Value::Number(t) => {
            let negative = t.len() > 0 && t[0] == 45;
            let start: usize = if negative {
                1
            } else {
                0
            };
            let ghost d = if negative {
                t@.drop_first()
            } else {
                t@
            };
            assert(d =~= t@.subrange(start as int, t@.len() as int));
            let digits = match crate::core_change_worker::parse_digits(t.as_slice(), start) {
                None => {
                    assert(crate::core_change_worker::read_digits(d) is None);
                    return None;
                },
                Some(x) => x,
            };
            assert(crate::core_change_worker::read_digits(d) == Some(digits));
            proof {
                crate::core_change_worker::lemma_nonneg(d);
            }
            if negative {
                if digits <= 9223372036854775808 {
                    let r: i128 = -(digits as i128);
                    Some(r as i64)
                } else {
                    None
                }
            } else if digits <= 9223372036854775807 {
                Some(digits as i64)
            } else {
                None
            }
        },
        _ => None,
    }
}

/// The baseline a stored after-state proves for the bound activity, or why
/// there is none.
pub open spec fn proof_valid(stored: AfterState, binding: Binding) -> bool {
    let row = stored.native@;
    &&& stored.version == 1
    &&& row is Object
    &&& doc_field(row, "revision") == ValueView::Number(name("1"))
    &&& doc_field(row, "id") == id_value(binding.target)
    &&& doc_field(row, "organization_id") == id_value(binding.organization.0)
    &&& doc_field(row, "person_id") == id_value(binding.person)
    &&& doc_field(row, "correlation_id") == id_value(binding.first_import)
    &&& doc_field(row, "source") == ValueView::Text(name("fub"))
    &&& doc_field(row, "source_external_id") == string_value(binding.native_source_key)
    &&& doc_field(row, "origin") == ValueView::Text(name("migration"))
    &&& row->Object_0.contains_key(name("deleted_at")) && row->Object_0[name("deleted_at")]
        == ValueView::Null
    &&& row->Object_0.contains_key(name("deleted_by_user_id")) && row->Object_0[name(
        "deleted_by_user_id",
    )] == ValueView::Null
}

/// The observation of the current row, or the hold it gives.
pub open spec fn observed(current: DocView) -> Result<(u128, u128, i64), Hold> {
    let person = match doc_field(current, "person_id") {
        ValueView::Text(t) => uuid_parsed(t),
        _ => None,
    };
    let target = match doc_field(current, "id") {
        ValueView::Text(t) => uuid_parsed(t),
        _ => None,
    };
    if current is Scalar || person is None {
        Err(Hold::IdentityMismatch)
    } else if target is None {
        Err(Hold::IdentityMismatch)
    } else {
        match value_i64(doc_field(current, "revision")) {
            None => Err(Hold::BaselineUnproven),
            Some(r) => Ok((person->0, target->0, r)),
        }
    }
}

/// The authenticated after-state is independent of C. Revision comparison
/// rejects edit-and-revert (ABA); equality cannot create migration ownership.
pub open spec fn verify_result(stored: Option<AfterState>, binding: Binding, current: Option<Doc>) -> Result<
    (),
    Hold,
> {
    match stored {
        None => Err(Hold::BaselineUnproven),
        Some(p) => if !proof_valid(p, binding) {
            Err(Hold::BaselineUnproven)
        } else {
            match current {
                None => Err(Hold::TargetErased),
                Some(c) => match observed(c@) {
                    Err(h) => Err(h),
                    Ok((person, target, revision)) => {
                        let b = Baseline {
                            result_id: binding.result,
                            person_id: binding.person,
                            target_id: binding.target,
                            revision: 1,
                            native: p.native,
                            owned: true,
                            head_id: None,
                        };
                        let o = Current {
                            person_id: person,
                            target_id: target,
                            revision,
                            native: c,
                            deleted: doc_field(c@, "deleted_at") != ValueView::Null,
                            head_id: None,
                        };
                        match native_outcome(Some(b), Some(o), c@, true, true) {
                            Outcome::AlreadyCurrent => Ok(()),
                            Outcome::Held(h) => Err(h),
                            _ => Err(Hold::BaselineUnproven),
                        }
                    },
                },
            }
        },
    }
}

fn text_uuid(v: &Value) -> (id: Option<u128>)
    ensures
        id == (match v@ {
            ValueView::Text(t) => uuid_parsed(t),
            _ => None,
        }),
{
    match v {
        Value::Text(t) => parse_uuid(t.as_slice()),
        _ => None,
    }
}

fn copy_doc(d: &Doc) -> (copy: Doc)
    requires
        d.wf(),
    ensures
        copy.wf(),
        copy@ == d@,
{
    match d {
        Doc::Object(fields) => Doc::Object(copy_object(fields)),
        Doc::Scalar(v) => Doc::Scalar(super::activity_delta::copy_value(v)),
    }
}

/// Accepts a stored after-state as the baseline of the bound activity when
/// the current row is exactly that state at the same revision.
pub fn verify(stored: Option<&AfterState>, binding: &Binding, current: Option<&Doc>) -> (r: Result<
    Baseline<Doc>,
    Hold,
>)
    requires
        stored matches Some(p) ==> p.native.wf(),
        current matches Some(c) ==> c.wf(),
    ensures
        match verify_result(super::model::deref_opt(stored), *binding, super::model::deref_opt(current)) {
            Ok(()) => r matches Ok(b) && b.result_id == binding.result && b.person_id == binding.person
                && b.target_id == binding.target && b.revision == 1 && b.native@ == stored->0.native@
                && b.native.wf() && b.owned && b.head_id is None,
            Err(h) => r == Err::<Baseline<Doc>, Hold>(h),
        },
{
    let p = match stored {
        None => {
            return Err(Hold::BaselineUnproven);
        },
        Some(p) => p,
    };
    let row = match &p.native {
        Doc::Object(fields) => fields,
        Doc::Scalar(_) => {
            return Err(Hold::BaselineUnproven);
        },
    };
    let one = Value::Number(copy_bytes("1".as_bytes()));
    if p.version != 1 || !value_equal(&get(row, "revision"), &one) || !value_equal(
        &get(row, "id"),
        &id_val(binding.target),
    ) || !value_equal(&get(row, "organization_id"), &id_val(binding.organization.0))
        || !value_equal(&get(row, "person_id"), &id_val(binding.person)) || !value_equal(
        &get(row, "correlation_id"),
        &id_val(binding.first_import),
    ) || !value_equal(&get(row, "source"), &literal("fub")) || !value_equal(
        &get(row, "source_external_id"),
        &string_val(&binding.native_source_key),
    ) || !value_equal(&get(row, "origin"), &literal("migration")) || !present(row, "deleted_at")
        || !value_equal(&get(row, "deleted_at"), &Value::Null) || !present(row, "deleted_by_user_id")
        || !value_equal(&get(row, "deleted_by_user_id"), &Value::Null) {
        return Err(Hold::BaselineUnproven);
    }
    let baseline = Baseline {
        result_id: binding.result,
        person_id: binding.person,
        target_id: binding.target,
        revision: 1,
        native: copy_doc(&p.native),
        owned: true,
        head_id: None,
    };
    let c = match current {
        None => {
            return Err(Hold::TargetErased);
        },
        Some(c) => c,
    };
    let is_object = match c {
        Doc::Object(_) => true,
        Doc::Scalar(_) => false,
    };
    let person = text_uuid(&doc_get(c, "person_id"));
    if !is_object || person.is_none() {
        return Err(Hold::IdentityMismatch);
    }
    let target = text_uuid(&doc_get(c, "id"));
    if target.is_none() {
        return Err(Hold::IdentityMismatch);
    }
    let revision = match read_i64(&doc_get(c, "revision")) {
        None => {
            return Err(Hold::BaselineUnproven);
        },
        Some(r) => r,
    };
    let observation = Current {
        person_id: person.unwrap(),
        target_id: target.unwrap(),
        revision,
        native: copy_doc(c),
        deleted: !value_equal(&doc_get(c, "deleted_at"), &Value::Null),
        head_id: None,
    };
    match compare_native(Some(&baseline), Some(&observation), c, true, true) {
        Outcome::AlreadyCurrent => Ok(baseline),
        Outcome::Held(h) => Err(h),
        _ => Err(Hold::BaselineUnproven),
    }
}

} // verus!
