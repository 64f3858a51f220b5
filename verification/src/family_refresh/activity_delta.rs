//! Closed update proposals after retained activity conversion and explicit role,
//! kind and timezone mapping. This code neither discovers nor authorizes writes.
//!
//! A native activity row is a JSON document. Its scalar values are kept as
//! such (strings as UTF-8 bytes, numbers by their JSON text); any nested value
//! is kept whole by its canonical JSON text, so two documents are equal exactly
//! when their JSON values are.
use super::model::{
    compare_native, decimal_digits, decimal_text, native_outcome, Baseline, Counts, Current, Hold,
    Kind, Native, Outcome,
};
use crate::bytes::{uuid_hyphenated, uuid_text};
use crate::family_refresh::model::bytes_equal;
use vstd::prelude::*;
use vstd::string::StringSliceAdditionalSpecFns;

verus! {

/// A JSON value of a native row.
#[derive(Debug, Clone, PartialEq, Eq)]
pub enum Value {
    Null,
    Bool(bool),
    /// A JSON number, by its JSON text.
    Number(Vec<u8>),
    /// A JSON string, by its UTF-8 bytes.
    Text(Vec<u8>),
    /// An array or object, by its canonical JSON text.
    Nested(Vec<u8>),
}

pub enum ValueView {
    Null,
    Bool(bool),
    Number(Seq<u8>),
    Text(Seq<u8>),
    Nested(Seq<u8>),
}

impl View for Value {
    type V = ValueView;

    open spec fn view(&self) -> ValueView {
        match self {
            Value::Null => ValueView::Null,
            Value::Bool(b) => ValueView::Bool(*b),
            Value::Number(n) => ValueView::Number(n@),
            Value::Text(t) => ValueView::Text(t@),
            Value::Nested(j) => ValueView::Nested(j@),
        }
    }
}

/// A native row document: an object of named values, or any other value.
#[derive(Debug, Clone, PartialEq, Eq)]
pub enum Doc {
    Object(Vec<(Vec<u8>, Value)>),
    Scalar(Value),
}

pub enum DocView {
    Object(Map<Seq<u8>, ValueView>),
    Scalar(ValueView),
}

pub open spec fn has_name(s: Seq<(Vec<u8>, Value)>, k: Seq<u8>) -> bool {
    exists|i: int| 0 <= i < s.len() && s[i].0@ == k
}

pub open spec fn name_index(s: Seq<(Vec<u8>, Value)>, k: Seq<u8>) -> int {
    choose|i: int| 0 <= i < s.len() && s[i].0@ == k
}

pub open spec fn unique_names(s: Seq<(Vec<u8>, Value)>) -> bool {
    forall|i: int, j: int| 0 <= i < s.len() && 0 <= j < s.len() && i != j ==> s[i].0@ != s[j].0@
}

/// The named values of an object.
pub open spec fn object_map(s: Seq<(Vec<u8>, Value)>) -> Map<Seq<u8>, ValueView> {
    Map::new(|k: Seq<u8>| has_name(s, k), |k: Seq<u8>| s[name_index(s, k)].1@)
}

impl View for Doc {
    type V = DocView;

    open spec fn view(&self) -> DocView {
        match self {
            Doc::Object(fields) => DocView::Object(object_map(fields@)),
            Doc::Scalar(v) => DocView::Scalar(v@),
        }
    }
}

impl Doc {
    /// Each name of an object appears once.
    pub open spec fn wf(&self) -> bool {
        match self {
            Doc::Object(fields) => unique_names(fields@),
            Doc::Scalar(_) => true,
        }
    }
}

proof fn lemma_name_index(s: Seq<(Vec<u8>, Value)>, i: int)
    requires
        unique_names(s),
        0 <= i < s.len(),
    ensures
        has_name(s, s[i].0@),
        name_index(s, s[i].0@) == i,
{
    assert(has_name(s, s[i].0@));
}

pub(crate) fn value_equal(a: &Value, b: &Value) -> (same: bool)
    ensures
        same == (a@ == b@),
{
    match (a, b) {
        (Value::Null, Value::Null) => true,
        (Value::Bool(x), Value::Bool(y)) => *x == *y,
        (Value::Number(x), Value::Number(y)) => bytes_equal(x.as_slice(), y.as_slice()),
        (Value::Text(x), Value::Text(y)) => bytes_equal(x.as_slice(), y.as_slice()),
        (Value::Nested(x), Value::Nested(y)) => bytes_equal(x.as_slice(), y.as_slice()),
        _ => false,
    }
}

/// The position of a name in an object.
fn find_name(fields: &Vec<(Vec<u8>, Value)>, key: &[u8]) -> (found: Option<usize>)
    requires
        unique_names(fields@),
    ensures
        found is None <==> !has_name(fields@, key@),
        found matches Some(i) ==> i < fields@.len() && fields@[i as int].0@ == key@ && name_index(
            fields@,
            key@,
        ) == i,
{
    let mut i: usize = 0;
    while i < fields.len()
        invariant
            i <= fields@.len(),
            unique_names(fields@),
            forall|j: int| 0 <= j < i ==> fields@[j].0@ != key@,
        decreases fields.len() - i,
    {
        if bytes_equal(fields[i].0.as_slice(), key) {
            proof {
                lemma_name_index(fields@, i as int);
            }
            return Some(i);
        }
        i = i + 1;
    }
    None
}

pub(crate) fn copy_value(v: &Value) -> (copy: Value)
    ensures
        copy@ == v@,
{
    match v {
        Value::Null => Value::Null,
        Value::Bool(b) => Value::Bool(*b),
        Value::Number(n) => Value::Number(copy_bytes(n.as_slice())),
        Value::Text(t) => Value::Text(copy_bytes(t.as_slice())),
        Value::Nested(j) => Value::Nested(copy_bytes(j.as_slice())),
    }
}

pub(crate) fn copy_bytes(v: &[u8]) -> (copy: Vec<u8>)
    ensures
        copy@ == v@,
{
    let mut copy: Vec<u8> = Vec::new();
    let mut i: usize = 0;
    while i < v.len()
        invariant
            i <= v@.len(),
            copy@ == v@.take(i as int),
        decreases v.len() - i,
    {
        copy.push(v[i]);
        i = i + 1;
        assert(copy@ =~= v@.take(i as int));
    }
    assert(copy@ =~= v@);
    copy
}

/// Sets one named value of an object, adding the name if it is absent.
pub(crate) fn put(fields: &mut Vec<(Vec<u8>, Value)>, key: &[u8], v: Value)
    requires
        unique_names(old(fields)@),
    ensures
        unique_names(final(fields)@),
        object_map(final(fields)@) == object_map(old(fields)@).insert(key@, v@),
{
    let ghost s = fields@;
    let ghost vv = v@;
    match find_name(fields, key) {
        Some(i) => {
            let name = copy_bytes(fields[i].0.as_slice());
            fields.set(i, (name, v));
            proof {
                let r = fields@;
                assert forall|a: int, b: int| 0 <= a < r.len() && 0 <= b < r.len() && a != b implies r[a].0@
                    != r[b].0@ by {
                    assert(r[a].0@ == s[a].0@);
                    assert(r[b].0@ == s[b].0@);
                }
                assert forall|k: Seq<u8>| has_name(r, k) <==> has_name(s, k) by {
                    if has_name(r, k) {
                        let j = choose|j: int| 0 <= j < r.len() && r[j].0@ == k;
                        assert(s[j].0@ == k);
                    }
                    if has_name(s, k) {
                        let j = choose|j: int| 0 <= j < s.len() && s[j].0@ == k;
                        assert(r[j].0@ == k);
                    }
                }
                assert forall|k: Seq<u8>| has_name(r, k) implies object_map(r)[k] == object_map(s).insert(
                    key@,
                    vv,
                )[k] by {
                    let j = name_index(s, k);
                    assert(r[j].0@ == k);
                    lemma_name_index(r, j);
                }
                assert(object_map(r) =~= object_map(s).insert(key@, vv));
            }
        },
        None => {
            let name = copy_bytes(key);
            fields.push((name, v));
            proof {
                let r = fields@;
                assert(r[s.len() as int].0@ == key@);
                assert forall|a: int, b: int| 0 <= a < r.len() && 0 <= b < r.len() && a != b implies r[a].0@
                    != r[b].0@ by {
                    if a == s.len() {
                        assert(!(0 <= b < s.len() && s[b].0@ == key@));
                    }
                    if b == s.len() {
                        assert(!(0 <= a < s.len() && s[a].0@ == key@));
                    }
                }
                assert forall|k: Seq<u8>| has_name(r, k) <==> (has_name(s, k) || k == key@) by {
                    if has_name(r, k) {
                        let j = choose|j: int| 0 <= j < r.len() && r[j].0@ == k;
                        if j < s.len() {
                            assert(s[j].0@ == k);
                        }
                    }
                    if has_name(s, k) {
                        let j = choose|j: int| 0 <= j < s.len() && s[j].0@ == k;
                        assert(r[j].0@ == k);
                    }
                }
                lemma_name_index(r, s.len() as int);
                assert forall|k: Seq<u8>| has_name(r, k) implies object_map(r)[k] == object_map(s).insert(
                    key@,
                    vv,
                )[k] by {
                    if k != key@ {
                        let j = name_index(s, k);
                        assert(r[j].0@ == k);
                        lemma_name_index(r, j);
                    }
                }
                assert(object_map(r) =~= object_map(s).insert(key@, vv));
            }
        },
    }
}

fn same_objects(a: &Vec<(Vec<u8>, Value)>, b: &Vec<(Vec<u8>, Value)>) -> (same: bool)
    requires
        unique_names(a@),
        unique_names(b@),
    ensures
        same == (object_map(a@) == object_map(b@)),
{
    proof {
        lemma_object_len(a@);
        lemma_object_len(b@);
    }
    if a.len() != b.len() {
        proof {
            if object_map(a@) == object_map(b@) {
                assert(object_map(a@).dom() == object_map(b@).dom());
                assert(false);
            }
        }
        return false;
    }
    let mut i: usize = 0;
    while i < a.len()
        invariant
            a@.len() == b@.len(),
            unique_names(a@),
            unique_names(b@),
            i <= a@.len(),
            forall|j: int|
                0 <= j < i ==> has_name(b@, #[trigger] a@[j].0@) && b@[name_index(b@, a@[j].0@)].1@
                    == a@[j].1@,
        decreases a.len() - i,
    {
        match find_name(b, a[i].0.as_slice()) {
            None => {
                proof {
                    lemma_name_index(a@, i as int);
                    assert(object_map(a@).dom().contains(a@[i as int].0@));
                }
                return false;
            },
            Some(k) => {
                if !value_equal(&a[i].1, &b[k].1) {
                    proof {
                        lemma_name_index(a@, i as int);
                        assert(object_map(a@)[a@[i as int].0@] == a@[i as int].1@);
                    }
                    return false;
                }
            },
        }
        i = i + 1;
    }
    proof {
        assert(object_map(a@).dom().subset_of(object_map(b@).dom())) by {
            assert forall|x: Seq<u8>| object_map(a@).dom().contains(x) implies object_map(b@).dom().contains(
                x,
            ) by {
                let j = choose|j: int| 0 <= j < a@.len() && a@[j].0@ == x;
                assert(has_name(b@, a@[j].0@));
            }
        }
        vstd::set_lib::lemma_subset_equality(object_map(a@).dom(), object_map(b@).dom());
        assert forall|x: Seq<u8>| object_map(a@).dom().contains(x) implies object_map(a@)[x] == object_map(
            b@,
        )[x] by {
            let j = choose|j: int| 0 <= j < a@.len() && a@[j].0@ == x;
            lemma_name_index(a@, j);
        }
        assert(object_map(a@) =~= object_map(b@));
    }
    true
}

proof fn lemma_object_len(s: Seq<(Vec<u8>, Value)>)
    requires
        unique_names(s),
    ensures
        object_map(s).dom().finite(),
        object_map(s).dom().len() == s.len(),
{
    let k = s.map_values(|p: (Vec<u8>, Value)| p.0@);
    assert(k.no_duplicates()) by {
        assert forall|i: int, j: int| 0 <= i < k.len() && 0 <= j < k.len() && i != j implies k[i]
            != k[j] by {}
    }
    k.unique_seq_to_set();
    assert forall|x: Seq<u8>| object_map(s).dom().contains(x) <==> k.to_set().contains(x) by {
        if has_name(s, x) {
            let i = choose|i: int| 0 <= i < s.len() && s[i].0@ == x;
            assert(k[i] == x);
        }
        if k.contains(x) {
            let i = choose|i: int| 0 <= i < k.len() && k[i] == x;
            assert(s[i].0@ == x);
        }
    }
    assert(object_map(s).dom() =~= k.to_set());
}

impl Native for Doc {
    open spec fn valid(&self) -> bool {
        self.wf()
    }

    fn same(&self, other: &Self) -> (same: bool) {
        match (self, other) {
            (Doc::Object(a), Doc::Object(b)) => same_objects(a, b),
            (Doc::Scalar(a), Doc::Scalar(b)) => value_equal(a, b),
            _ => false,
        }
    }
}


// ---------------------------------------------------------------------------
// Instants.

/// A UTC instant: whole seconds since the Unix epoch and the nanoseconds past
/// them (a leap second counts its nanoseconds past one billion).
#[derive(Debug, Clone, Copy, PartialEq, Eq, Structural)]
pub struct Instant {
    pub seconds: i64,
    pub nanos: u32,
}

pub open spec fn earlier(a: Instant, b: Instant) -> bool {
    a.seconds < b.seconds || (a.seconds == b.seconds && a.nanos < b.nanos)
}

pub(crate) fn is_earlier(a: Instant, b: Instant) -> (e: bool)
    ensures
        e == earlier(a, b),
{
    a.seconds < b.seconds || (a.seconds == b.seconds && a.nanos < b.nanos)
}

/// The UTC instant chrono reads from RFC 3339 text, if it reads one.
pub uninterp spec fn rfc3339_instant(text: Seq<u8>) -> Option<Instant>;

/// The RFC 3339 text chrono writes for a UTC instant in JSON, if chrono can
/// represent the instant.
pub uninterp spec fn instant_json(i: Instant) -> Option<Seq<u8>>;

/// Reads RFC 3339 text with `chrono::DateTime::parse_from_rfc3339`, as a UTC
/// instant. The contract only names the result; text that is not UTF-8 reads
/// as no instant.
#[verifier::external_body]
fn parse_instant(text: &[u8]) -> (i: Option<Instant>)
    ensures
        i == rfc3339_instant(text@),
{
    let s = std::str::from_utf8(text).ok()?;
    let d = chrono::DateTime::parse_from_rfc3339(s).ok()?.with_timezone(&chrono::Utc);
    Some(Instant { seconds: d.timestamp(), nanos: d.timestamp_subsec_nanos() })
}

/// Writes a UTC instant the way chrono serializes it: RFC 3339 with automatic
/// fractional seconds and `Z` (`DateTime::to_rfc3339_opts`). The contract
/// only names the result.
#[verifier::external_body]
fn write_instant(i: Instant) -> (text: Option<Vec<u8>>)
    ensures
        match text {
            Some(t) => instant_json(i) == Some(t@),
            None => instant_json(i) is None,
        },
{
    let d = chrono::DateTime::<chrono::Utc>::from_timestamp(i.seconds, i.nanos)?;
    Some(d.to_rfc3339_opts(chrono::SecondsFormat::AutoSi, true).into_bytes())
}

/// The instant a native time value holds: none for null, an error for
/// anything that is not RFC 3339 text.
pub open spec fn read_time(v: ValueView) -> Result<Option<Instant>, Hold> {
    match v {
        ValueView::Null => Ok(None),
        ValueView::Text(t) => match rfc3339_instant(t) {
            Some(i) => Ok(Some(i)),
            None => Err(Hold::BaselineUnproven),
        },
        _ => Err(Hold::BaselineUnproven),
    }
}

/// The native value of an optional instant.
pub open spec fn time_value(t: Option<Instant>) -> Option<ValueView> {
    match t {
        None => Some(ValueView::Null),
        Some(i) => match instant_json(i) {
            Some(s) => Some(ValueView::Text(s)),
            None => None,
        },
    }
}

fn time(v: &Value) -> (t: Result<Option<Instant>, Hold>)
    ensures
        t == read_time(v@),
{
    match v {
        Value::Null => Ok(None),
        Value::Text(text) => match parse_instant(text.as_slice()) {
            Some(i) => Ok(Some(i)),
            None => Err(Hold::BaselineUnproven),
        },
        _ => Err(Hold::BaselineUnproven),
    }
}

pub(crate) fn time_val(t: Option<Instant>) -> (v: Option<Value>)
    ensures
        match v {
            Some(x) => time_value(t) == Some(x@),
            None => time_value(t) is None,
        },
{
    match t {
        None => Some(Value::Null),
        Some(i) => match write_instant(i) {
            Some(text) => Some(Value::Text(text)),
            None => None,
        },
    }
}

// ---------------------------------------------------------------------------
// Activity sources.

/// Retained source content of one activity, after role and kind mapping.
pub enum Content {
    Note { body: String, author: Option<u128> },
    Task {
        title: String,
        /// Wire name of the mapped task kind.
        kind: String,
        creator: Option<u128>,
        assignee: Option<u128>,
        due: Option<Instant>,
        completed: Option<Instant>,
    },
}

pub struct Source {
    pub created: Instant,
    pub updated: Instant,
    pub content: Content,
    /// The note body or task title is accepted unchanged by the native
    /// content rules.
    pub content_valid: bool,
}

pub struct Scope {
    pub organization: u128,
    pub source_external_id: String,
    pub correlation: u128,
}

pub struct Members {
    /// Historical authors/creators may be inactive, but must belong to this Org.
    pub all: Vec<u128>,
    pub active: Vec<u128>,
}

#[derive(Debug, Clone)]
pub struct Proposal {
    pub kind: Kind,
    pub target: u128,
    pub person: u128,
    pub expected_revision: i64,
    pub expected_head: Option<u128>,
    pub after: Doc,
    pub counts: Counts,
}

/// A role is unassigned or held by a listed member.
pub open spec fn member_ok(id: Option<u128>, members: Seq<u128>) -> bool {
    id matches Some(x) ==> members.contains(x)
}

fn member(id: Option<u128>, members: &Vec<u128>) -> (r: Result<(), Hold>)
    ensures
        r is Ok <==> member_ok(id, members@),
        r matches Err(h) ==> h == Hold::MappingRequired,
{
    match id {
        Some(x) => {
            let mut i: usize = 0;
            while i < members.len()
                invariant
                    id == Some(x),
                    i <= members@.len(),
                    forall|j: int| 0 <= j < i ==> members@[j] != x,
                decreases members.len() - i,
            {
                if members[i] == x {
                    assert(members@[i as int] == x);
                    return Ok(());
                }
                i = i + 1;
            }
            Err(Hold::MappingRequired)
        },
        None => Ok(()),
    }
}

pub open spec fn name(s: &str) -> Seq<u8> {
    s.spec_bytes()
}

pub open spec fn id_value(x: u128) -> ValueView {
    ValueView::Text(uuid_text(x))
}

pub open spec fn opt_id_value(x: Option<u128>) -> ValueView {
    match x {
        Some(v) => id_value(v),
        None => ValueView::Null,
    }
}

pub open spec fn string_value(s: String) -> ValueView {
    ValueView::Text(vstd::utf8::encode_utf8(s@))
}

pub(crate) fn id_val(x: u128) -> (v: Value)
    ensures
        v@ == id_value(x),
{
    Value::Text(uuid_hyphenated(x))
}

pub(crate) fn opt_id_val(x: Option<u128>) -> (v: Value)
    ensures
        v@ == opt_id_value(x),
{
    match x {
        Some(i) => id_val(i),
        None => Value::Null,
    }
}

pub(crate) fn string_val(s: &String) -> (v: Value)
    ensures
        v@ == string_value(*s),
{
    Value::Text(copy_bytes(s.as_str().as_bytes()))
}

pub(crate) fn literal(s: &str) -> (v: Value)
    ensures
        v@ == ValueView::Text(name(s)),
{
    Value::Text(copy_bytes(s.as_bytes()))
}


// ---------------------------------------------------------------------------
// Proposals.

pub struct ProposalView {
    pub kind: Kind,
    pub target: u128,
    pub person: u128,
    pub expected_revision: i64,
    pub expected_head: Option<u128>,
    pub after: DocView,
    pub counts: Counts,
}

pub open spec fn result_view(r: Result<Proposal, Hold>) -> Result<ProposalView, Hold> {
    match r {
        Ok(p) => Ok(
            ProposalView {
                kind: p.kind,
                target: p.target,
                person: p.person,
                expected_revision: p.expected_revision,
                expected_head: p.expected_head,
                after: p.after@,
                counts: p.counts,
            },
        ),
        Err(h) => Err(h),
    }
}

/// One unit with the given action counts and nothing else.
pub open spec fn unit_counts(inserts: u64, updates: u64, already_current: u64, completions: u64, reopens: u64) -> Counts {
    Counts {
        units: 1,
        inserts,
        updates,
        already_current,
        held: 0,
        excluded: 0,
        tag_removals: 0,
        field_clears: 0,
        task_completions: completions,
        task_reopens: reopens,
        history_corrections: 0,
        source_only: 0,
    }
}

fn counts_of(inserts: u64, updates: u64, already_current: u64, completions: u64, reopens: u64) -> (c: Counts)
    ensures
        c == unit_counts(inserts, updates, already_current, completions, reopens),
{
    Counts {
        units: 1,
        inserts,
        updates,
        already_current,
        held: 0,
        excluded: 0,
        tag_removals: 0,
        field_clears: 0,
        task_completions: completions,
        task_reopens: reopens,
        history_corrections: 0,
        source_only: 0,
    }
}

/// The fields every new migration-created activity row starts with.
pub open spec fn common_row(
    scope: Scope,
    person: u128,
    target: u128,
    created: ValueView,
    updated: ValueView,
) -> Map<Seq<u8>, ValueView> {
    Map::empty().insert(name("id"), id_value(target)).insert(
        name("organization_id"),
        id_value(scope.organization),
    ).insert(name("person_id"), id_value(person)).insert(
        name("origin"),
        ValueView::Text(name("migration")),
    ).insert(name("source"), ValueView::Text(name("fub"))).insert(
        name("source_external_id"),
        string_value(scope.source_external_id),
    ).insert(name("correlation_id"), id_value(scope.correlation)).insert(
        name("created_at"),
        created,
    ).insert(name("updated_at"), updated).insert(name("deleted_at"), ValueView::Null).insert(
        name("deleted_by_user_id"),
        ValueView::Null,
    ).insert(name("revision"), ValueView::Number(name("1")))
}

/// The initial native row of a new activity, before execution repeats the
/// discovery and collision checks under its locks.
pub open spec fn spec_insert(
    scope: Scope,
    person: u128,
    target: u128,
    source: Source,
    members: Members,
    identity_consumed: bool,
    first_coverage: bool,
) -> Result<ProposalView, Hold> {
    match native_outcome::<Doc>(
        None,
        None,
        DocView::Scalar(ValueView::Null),
        identity_consumed,
        first_coverage,
    ) {
        Outcome::Insert => if earlier(source.updated, source.created) {
            Err(Hold::UnsupportedSource)
        } else {
            match (time_value(Some(source.created)), time_value(Some(source.updated))) {
                (Some(cv), Some(uv)) => {
                    let base = common_row(scope, person, target, cv, uv);
                    match source.content {
                        Content::Note { body, author } => if !source.content_valid {
                            Err(Hold::UnsupportedSource)
                        } else if !member_ok(author, members.all@) {
                            Err(Hold::MappingRequired)
                        } else {
                            Ok(
                                ProposalView {
                                    kind: Kind::Note,
                                    target,
                                    person,
                                    expected_revision: 0,
                                    expected_head: None,
                                    after: DocView::Object(
                                        base.insert(name("body"), string_value(body)).insert(
                                            name("author_user_id"),
                                            opt_id_value(author),
                                        ),
                                    ),
                                    counts: unit_counts(1, 0, 0, 0, 0),
                                },
                            )
                        },
                        Content::Task { title, kind, creator, assignee, due, completed } => if !source.content_valid {
                            Err(Hold::UnsupportedSource)
                        } else if !member_ok(creator, members.all@) || !member_ok(assignee, members.active@) {
                            Err(Hold::MappingRequired)
                        } else {
                            match (time_value(due), time_value(completed)) {
                                (Some(dv), Some(cv2)) => Ok(
                                    ProposalView {
                                        kind: Kind::Task,
                                        target,
                                        person,
                                        expected_revision: 0,
                                        expected_head: None,
                                        after: DocView::Object(
                                            base.insert(name("title"), string_value(title)).insert(
                                                name("kind"),
                                                string_value(kind),
                                            ).insert(name("created_by_user_id"), opt_id_value(creator)).insert(
                                                name("assignee_user_id"),
                                                opt_id_value(assignee),
                                            ).insert(name("due_at"), dv).insert(name("completed_at"), cv2).insert(
                                                name("completed_by_user_id"),
                                                ValueView::Null,
                                            ),
                                        ),
                                        counts: unit_counts(1, 0, 0, 0, 0),
                                    },
                                ),
                                _ => Err(Hold::UnsupportedSource),
                            }
                        },
                    }
                },
                _ => Err(Hold::UnsupportedSource),
            }
        },
        Outcome::Held(h) => Err(h),
        _ => Err(Hold::BaselineUnproven),
    }
}

/// Build an initial native row only after source/cohort/coverage discovery and
/// global/native collision checks. Zero means no existing native revision;
/// execution uses an INSERT permit and repeats those checks under its locks.
/// An instant chrono cannot write is held as an unsupported source.
pub fn propose_insert(
    scope: &Scope,
    person: u128,
    target: u128,
    source: &Source,
    members: &Members,
    identity_consumed: bool,
    first_coverage: bool,
) -> (r: Result<Proposal, Hold>)
    ensures
        result_view(r) == spec_insert(
            *scope,
            person,
            target,
            *source,
            *members,
            identity_consumed,
            first_coverage,
        ),
        r matches Ok(p) ==> p.after.wf(),
{
    let null = Doc::Scalar(Value::Null);
    match compare_native::<Doc>(None, None, &null, identity_consumed, first_coverage) {
        Outcome::Insert => {},
        Outcome::Held(h) => {
            return Err(h);
        },
        _ => {
            return Err(Hold::BaselineUnproven);
        },
    }
    if is_earlier(source.updated, source.created) {
        return Err(Hold::UnsupportedSource);
    }
    let created = match time_val(Some(source.created)) {
        Some(v) => v,
        None => {
            return Err(Hold::UnsupportedSource);
        },
    };
    let updated = match time_val(Some(source.updated)) {
        Some(v) => v,
        None => {
            return Err(Hold::UnsupportedSource);
        },
    };
    let mut row: Vec<(Vec<u8>, Value)> = Vec::new();
    assert(object_map(row@) =~= Map::<Seq<u8>, ValueView>::empty());
    put(&mut row, "id".as_bytes(), id_val(target));
    put(&mut row, "organization_id".as_bytes(), id_val(scope.organization));
    put(&mut row, "person_id".as_bytes(), id_val(person));
    put(&mut row, "origin".as_bytes(), literal("migration"));
    put(&mut row, "source".as_bytes(), literal("fub"));
    put(&mut row, "source_external_id".as_bytes(), string_val(&scope.source_external_id));
    put(&mut row, "correlation_id".as_bytes(), id_val(scope.correlation));
    put(&mut row, "created_at".as_bytes(), created);
    put(&mut row, "updated_at".as_bytes(), updated);
    put(&mut row, "deleted_at".as_bytes(), Value::Null);
    put(&mut row, "deleted_by_user_id".as_bytes(), Value::Null);
    put(&mut row, "revision".as_bytes(), Value::Number(copy_bytes("1".as_bytes())));
    let kind = match &source.content {
        Content::Note { body, author } => {
            if !source.content_valid {
                return Err(Hold::UnsupportedSource);
            }
            match member(*author, &members.all) {
                Err(h) => {
                    return Err(h);
                },
                Ok(()) => {},
            }
            put(&mut row, "body".as_bytes(), string_val(body));
            put(&mut row, "author_user_id".as_bytes(), opt_id_val(*author));
            Kind::Note
        },
        Content::Task { title, kind, creator, assignee, due, completed } => {
            if !source.content_valid {
                return Err(Hold::UnsupportedSource);
            }
            match member(*creator, &members.all) {
                Err(h) => {
                    return Err(h);
                },
                Ok(()) => {},
            }
            match member(*assignee, &members.active) {
                Err(h) => {
                    return Err(h);
                },
                Ok(()) => {},
            }
            let due_value = match time_val(*due) {
                Some(v) => v,
                None => {
                    return Err(Hold::UnsupportedSource);
                },
            };
            let completed_value = match time_val(*completed) {
                Some(v) => v,
                None => {
                    return Err(Hold::UnsupportedSource);
                },
            };
            put(&mut row, "title".as_bytes(), string_val(title));
            put(&mut row, "kind".as_bytes(), string_val(kind));
            put(&mut row, "created_by_user_id".as_bytes(), opt_id_val(*creator));
            put(&mut row, "assignee_user_id".as_bytes(), opt_id_val(*assignee));
            put(&mut row, "due_at".as_bytes(), due_value);
            put(&mut row, "completed_at".as_bytes(), completed_value);
            put(&mut row, "completed_by_user_id".as_bytes(), Value::Null);
            Kind::Task
        },
    };
    Ok(
        Proposal {
            kind,
            target,
            person,
            expected_revision: 0,
            expected_head: None,
            after: Doc::Object(row),
            counts: counts_of(1, 0, 0, 0, 0),
        },
    )
}


// ---------------------------------------------------------------------------
// Updates.

/// The value of a named field, null where the row has no such field.
pub open spec fn field(row: Map<Seq<u8>, ValueView>, k: &str) -> ValueView {
    if row.contains_key(name(k)) {
        row[name(k)]
    } else {
        ValueView::Null
    }
}

/// Every field a migration-created activity row carries.
pub open spec fn has_row_fields(row: Map<Seq<u8>, ValueView>) -> bool {
    &&& row.contains_key(name("id"))
    &&& row.contains_key(name("organization_id"))
    &&& row.contains_key(name("person_id"))
    &&& row.contains_key(name("origin"))
    &&& row.contains_key(name("source"))
    &&& row.contains_key(name("source_external_id"))
    &&& row.contains_key(name("created_at"))
    &&& row.contains_key(name("updated_at"))
    &&& row.contains_key(name("deleted_at"))
    &&& row.contains_key(name("deleted_by_user_id"))
    &&& row.contains_key(name("correlation_id"))
    &&& row.contains_key(name("revision"))
}

/// Every field a task row carries.
pub open spec fn has_task_fields(row: Map<Seq<u8>, ValueView>) -> bool {
    &&& row.contains_key(name("title"))
    &&& row.contains_key(name("kind"))
    &&& row.contains_key(name("created_by_user_id"))
    &&& row.contains_key(name("assignee_user_id"))
    &&& row.contains_key(name("due_at"))
    &&& row.contains_key(name("completed_at"))
    &&& row.contains_key(name("completed_by_user_id"))
}

/// Why the current row is not a live row of this migration-created activity
/// with the source's creation time, if it is not.
pub open spec fn row_hold(scope: Scope, c: Current<Doc>, row: Map<Seq<u8>, ValueView>, source: Source) -> Option<Hold> {
    if !has_row_fields(row) {
        Some(Hold::BaselineUnproven)
    } else if field(row, "id") != id_value(c.target_id) || field(row, "person_id") != id_value(c.person_id)
        || field(row, "organization_id") != id_value(scope.organization) || field(row, "source")
        != ValueView::Text(name("fub")) || field(row, "source_external_id") != string_value(
        scope.source_external_id,
    ) || field(row, "origin") != ValueView::Text(name("migration")) {
        Some(Hold::IdentityMismatch)
    } else if field(row, "deleted_at") != ValueView::Null || field(row, "deleted_by_user_id")
        != ValueView::Null {
        Some(Hold::TargetErased)
    } else if c.revision <= 0 || field(row, "revision") != ValueView::Number(
        decimal_digits(c.revision as nat),
    ) {
        Some(Hold::BaselineUnproven)
    } else {
        match read_time(field(row, "created_at")) {
            Err(h) => Some(h),
            Ok(t) => if t != Some(source.created) || earlier(source.updated, source.created) {
                Some(Hold::UnsupportedSource)
            } else {
                None
            },
        }
    }
}

/// A time field set to `desired`, keeping the row's own text where it
/// already denotes the same instant.
pub open spec fn put_time_spec(m: Map<Seq<u8>, ValueView>, k: &str, desired: Option<Instant>) -> Result<
    Map<Seq<u8>, ValueView>,
    Hold,
> {
    match read_time(field(m, k)) {
        Err(h) => Err(h),
        Ok(t) => if t == desired {
            Ok(m)
        } else {
            match time_value(desired) {
                Some(v) => Ok(m.insert(name(k), v)),
                None => Err(Hold::UnsupportedSource),
            }
        },
    }
}

pub struct Staged {
    pub kind: Kind,
    pub after: Map<Seq<u8>, ValueView>,
    pub completions: u64,
    pub reopens: u64,
}

/// The content fields of the source written over the row.
pub open spec fn content_stage(row: Map<Seq<u8>, ValueView>, source: Source, members: Members) -> Result<Staged, Hold> {
    match source.content {
        Content::Note { body, author } => if !(field(row, "body") is Text) || !row.contains_key(
            name("author_user_id"),
        ) {
            Err(Hold::BaselineUnproven)
        } else if !source.content_valid {
            Err(Hold::UnsupportedSource)
        } else if !member_ok(author, members.all@) {
            Err(Hold::MappingRequired)
        } else {
            Ok(
                Staged {
                    kind: Kind::Note,
                    after: row.insert(name("body"), string_value(body)).insert(
                        name("author_user_id"),
                        opt_id_value(author),
                    ),
                    completions: 0,
                    reopens: 0,
                },
            )
        },
        Content::Task { title, kind, creator, assignee, due, completed } => if !has_task_fields(row) {
            Err(Hold::BaselineUnproven)
        } else if !source.content_valid {
            Err(Hold::UnsupportedSource)
        } else if !member_ok(creator, members.all@) || !member_ok(assignee, members.all@) || !member_ok(
            assignee,
            members.active@,
        ) {
            Err(Hold::MappingRequired)
        } else if field(row, "completed_by_user_id") != ValueView::Null {
            Err(Hold::LocalChange)
        } else {
            match read_time(field(row, "completed_at")) {
                Err(h) => Err(h),
                Ok(was) => {
                    let a1 = row.insert(name("title"), string_value(title)).insert(
                        name("kind"),
                        string_value(kind),
                    ).insert(name("created_by_user_id"), opt_id_value(creator)).insert(
                        name("assignee_user_id"),
                        opt_id_value(assignee),
                    );
                    match put_time_spec(a1, "due_at", due) {
                        Err(h) => Err(h),
                        Ok(a2) => match put_time_spec(a2, "completed_at", completed) {
                            Err(h) => Err(h),
                            Ok(a3) => Ok(
                                Staged {
                                    kind: Kind::Task,
                                    after: a3.insert(name("completed_by_user_id"), ValueView::Null),
                                    completions: if was is None && completed is Some {
                                        1
                                    } else {
                                        0
                                    },
                                    reopens: if was is Some && completed is None {
                                        1
                                    } else {
                                        0
                                    },
                                },
                            ),
                        },
                    }
                },
            }
        },
    }
}

/// The update proposal for one activity.
pub open spec fn spec_update(
    scope: Scope,
    baseline: Option<Baseline<Doc>>,
    current: Option<Current<Doc>>,
    source: Source,
    members: Members,
    first_coverage: bool,
) -> Result<ProposalView, Hold> {
    let desired = match current {
        Some(c) => c.native@,
        None => DocView::Scalar(ValueView::Null),
    };
    match native_outcome(baseline, current, desired, true, first_coverage) {
        Outcome::Held(h) => Err(h),
        Outcome::AlreadyCurrent => {
            let b = baseline->0;
            let c = current->0;
            match c.native@ {
                DocView::Scalar(_) => Err(Hold::BaselineUnproven),
                DocView::Object(row) => match row_hold(scope, c, row, source) {
                    Some(h) => Err(h),
                    None => match content_stage(row, source, members) {
                        Err(h) => Err(h),
                        Ok(st) => match put_time_spec(st.after, "updated_at", Some(source.updated)) {
                            Err(h) => Err(h),
                            Ok(after) => match native_outcome(
                                Some(b),
                                Some(c),
                                DocView::Object(after),
                                true,
                                true,
                            ) {
                                Outcome::AlreadyCurrent => Ok(
                                    ProposalView {
                                        kind: st.kind,
                                        target: c.target_id,
                                        person: c.person_id,
                                        expected_revision: c.revision,
                                        expected_head: c.head_id,
                                        after: DocView::Object(after),
                                        counts: unit_counts(0, 0, 1, st.completions, st.reopens),
                                    },
                                ),
                                Outcome::Update => Ok(
                                    ProposalView {
                                        kind: st.kind,
                                        target: c.target_id,
                                        person: c.person_id,
                                        expected_revision: c.revision,
                                        expected_head: c.head_id,
                                        after: DocView::Object(
                                            after.insert(name("correlation_id"), id_value(scope.correlation)),
                                        ),
                                        counts: unit_counts(0, 1, 0, st.completions, st.reopens),
                                    },
                                ),
                                Outcome::Held(h) => Err(h),
                                Outcome::Insert => Err(Hold::BaselineUnproven),
                            },
                        },
                    },
                },
            }
        },
        _ => Err(Hold::BaselineUnproven),
    }
}

/// The value of a named field, or null.
pub(crate) fn get(row: &Vec<(Vec<u8>, Value)>, key: &str) -> (v: Value)
    requires
        unique_names(row@),
    ensures
        v@ == field(object_map(row@), key),
{
    match find_name(row, key.as_bytes()) {
        Some(i) => copy_value(&row[i].1),
        None => Value::Null,
    }
}

pub(crate) fn present(row: &Vec<(Vec<u8>, Value)>, key: &str) -> (present: bool)
    requires
        unique_names(row@),
    ensures
        present == object_map(row@).contains_key(name(key)),
{
    find_name(row, key.as_bytes()).is_some()
}

pub(crate) fn copy_object(fields: &Vec<(Vec<u8>, Value)>) -> (copy: Vec<(Vec<u8>, Value)>)
    requires
        unique_names(fields@),
    ensures
        unique_names(copy@),
        object_map(copy@) == object_map(fields@),
{
    let mut copy: Vec<(Vec<u8>, Value)> = Vec::new();
    let mut i: usize = 0;
    while i < fields.len()
        invariant
            i <= fields@.len(),
            copy@.len() == i,
            forall|j: int| #![trigger copy@[j]] 0 <= j < i ==> copy@[j].0@ == fields@[j].0@ && copy@[j].1@ == fields@[j].1@,
        decreases fields.len() - i,
    {
        let k = copy_bytes(fields[i].0.as_slice());
        let v = copy_value(&fields[i].1);
        copy.push((k, v));
        i = i + 1;
    }
    proof {
        let c = copy@;
        let s = fields@;
        assert forall|a: int, b: int| 0 <= a < c.len() && 0 <= b < c.len() && a != b implies c[a].0@ != c[b].0@ by {
            assert(c[a].0@ == s[a].0@);
            assert(c[b].0@ == s[b].0@);
        }
        assert forall|k: Seq<u8>| has_name(c, k) <==> has_name(s, k) by {
            if has_name(c, k) {
                let a = choose|a: int| 0 <= a < c.len() && c[a].0@ == k;
                assert(c[a].0@ == s[a].0@);
            }
            if has_name(s, k) {
                let a = choose|a: int| 0 <= a < s.len() && s[a].0@ == k;
                assert(c[a].0@ == k);
            }
        }
        assert forall|k: Seq<u8>| has_name(s, k) implies object_map(c)[k] == object_map(s)[k] by {
            let a = name_index(s, k);
            lemma_name_index(s, a);
            assert(c[a].0@ == k);
            lemma_name_index(c, a);
        }
        assert(object_map(c) =~= object_map(s));
    }
    copy
}

fn row_check(scope: &Scope, c: &Current<Doc>, row: &Vec<(Vec<u8>, Value)>, source: &Source) -> (h: Option<Hold>)
    requires
        unique_names(row@),
    ensures
        h == row_hold(*scope, *c, object_map(row@), *source),
{
    if !(present(row, "id") && present(row, "organization_id") && present(row, "person_id") && present(row, "origin")
        && present(row, "source") && present(row, "source_external_id") && present(row, "created_at") && present(
        row,
        "updated_at",
    ) && present(row, "deleted_at") && present(row, "deleted_by_user_id") && present(row, "correlation_id")
        && present(row, "revision")) {
        return Some(Hold::BaselineUnproven);
    }
    if !value_equal(&get(row, "id"), &id_val(c.target_id)) || !value_equal(
        &get(row, "person_id"),
        &id_val(c.person_id),
    ) || !value_equal(&get(row, "organization_id"), &id_val(scope.organization)) || !value_equal(
        &get(row, "source"),
        &literal("fub"),
    ) || !value_equal(&get(row, "source_external_id"), &string_val(&scope.source_external_id))
        || !value_equal(&get(row, "origin"), &literal("migration")) {
        return Some(Hold::IdentityMismatch);
    }
    if !value_equal(&get(row, "deleted_at"), &Value::Null) || !value_equal(
        &get(row, "deleted_by_user_id"),
        &Value::Null,
    ) {
        return Some(Hold::TargetErased);
    }
    if c.revision <= 0 {
        return Some(Hold::BaselineUnproven);
    }
    let revision = Value::Number(decimal_text(c.revision as u64));
    if !value_equal(&get(row, "revision"), &revision) {
        return Some(Hold::BaselineUnproven);
    }
    match time(&get(row, "created_at")) {
        Err(h) => Some(h),
        Ok(t) => {
            let same = match t {
                Some(i) => i == source.created,
                None => false,
            };
            if !same || is_earlier(source.updated, source.created) {
                Some(Hold::UnsupportedSource)
            } else {
                None
            }
        },
    }
}

fn put_time(row: &mut Vec<(Vec<u8>, Value)>, key: &str, desired: Option<Instant>) -> (r: Result<(), Hold>)
    requires
        unique_names(old(row)@),
    ensures
        unique_names(final(row)@),
        match put_time_spec(object_map(old(row)@), key, desired) {
            Ok(m) => r is Ok && object_map(final(row)@) == m,
            Err(h) => r == Err::<(), Hold>(h),
        },
{
    let current = time(&get(row, key));
    match current {
        Err(h) => Err(h),
        Ok(t) => {
            let same = match (t, desired) {
                (Some(a), Some(b)) => a == b,
                (None, None) => true,
                _ => false,
            };
            if same {
                return Ok(());
            }
            match time_val(desired) {
                Some(v) => {
                    put(row, key.as_bytes(), v);
                    Ok(())
                },
                None => Err(Hold::UnsupportedSource),
            }
        },
    }
}

/// Writes the source content over the row copy.
fn content_update(after: &mut Vec<(Vec<u8>, Value)>, source: &Source, members: &Members) -> (r: Result<(Kind, u64, u64), Hold>)
    requires
        unique_names(old(after)@),
    ensures
        unique_names(final(after)@),
        match content_stage(object_map(old(after)@), *source, *members) {
            Ok(st) => r == Ok::<(Kind, u64, u64), Hold>((st.kind, st.completions, st.reopens))
                && object_map(final(after)@) == st.after,
            Err(h) => r == Err::<(Kind, u64, u64), Hold>(h),
        },
{
    match &source.content {
        Content::Note { body, author } => {
            let body_is_text = match get(after, "body") {
                Value::Text(_) => true,
                _ => false,
            };
            if !body_is_text || !present(after, "author_user_id") {
                return Err(Hold::BaselineUnproven);
            }
            if !source.content_valid {
                return Err(Hold::UnsupportedSource);
            }
            match member(*author, &members.all) {
                Err(h) => {
                    return Err(h);
                },
                Ok(()) => {},
            }
            put(after, "body".as_bytes(), string_val(body));
            put(after, "author_user_id".as_bytes(), opt_id_val(*author));
            Ok((Kind::Note, 0, 0))
        },
        Content::Task { title, kind, creator, assignee, due, completed } => {
            if !(present(after, "title") && present(after, "kind") && present(after, "created_by_user_id") && present(
                after,
                "assignee_user_id",
            ) && present(after, "due_at") && present(after, "completed_at") && present(
                after,
                "completed_by_user_id",
            )) {
                return Err(Hold::BaselineUnproven);
            }
            if !source.content_valid {
                return Err(Hold::UnsupportedSource);
            }
            match member(*creator, &members.all) {
                Err(h) => {
                    return Err(h);
                },
                Ok(()) => {},
            }
            match member(*assignee, &members.all) {
                Err(h) => {
                    return Err(h);
                },
                Ok(()) => {},
            }
            match member(*assignee, &members.active) {
                Err(h) => {
                    return Err(h);
                },
                Ok(()) => {},
            }
            if !value_equal(&get(after, "completed_by_user_id"), &Value::Null) {
                return Err(Hold::LocalChange);
            }
            let was = match time(&get(after, "completed_at")) {
                Err(h) => {
                    return Err(h);
                },
                Ok(t) => t,
            };
            let completions: u64 = if was.is_none() && completed.is_some() {
                1
            } else {
                0
            };
            let reopens: u64 = if was.is_some() && completed.is_none() {
                1
            } else {
                0
            };
            put(after, "title".as_bytes(), string_val(title));
            put(after, "kind".as_bytes(), string_val(kind));
            put(after, "created_by_user_id".as_bytes(), opt_id_val(*creator));
            put(after, "assignee_user_id".as_bytes(), opt_id_val(*assignee));
            match put_time(after, "due_at", *due) {
                Err(h) => {
                    return Err(h);
                },
                Ok(()) => {},
            }
            match put_time(after, "completed_at", *completed) {
                Err(h) => {
                    return Err(h);
                },
                Ok(()) => {},
            }
            put(after, "completed_by_user_id".as_bytes(), Value::Null);
            Ok((Kind::Task, completions, reopens))
        },
    }
}

/// `organization` and source identity are resolved by the trusted preparation
/// transaction. Every native field is retained in B/C, including local fields
/// this update does not own. Correlation changes only when native data changes.
pub fn propose_update(
    scope: &Scope,
    baseline: Option<&Baseline<Doc>>,
    current: Option<&Current<Doc>>,
    source: &Source,
    members: &Members,
    first_coverage: bool,
) -> (r: Result<Proposal, Hold>)
    requires
        baseline matches Some(b) ==> b.native.wf(),
        current matches Some(c) ==> c.native.wf(),
    ensures
        result_view(r) == spec_update(
            *scope,
            super::model::deref_opt(baseline),
            super::model::deref_opt(current),
            *source,
            *members,
            first_coverage,
        ),
        r matches Ok(p) ==> p.after.wf(),
{
    // Compare against C first: this validates B==C and the separate revision
    // without interpreting source equality as permission to erase local edits.
    let null = Doc::Scalar(Value::Null);
    let desired = match current {
        Some(c) => &c.native,
        None => &null,
    };
    match compare_native(baseline, current, desired, true, first_coverage) {
        Outcome::Held(h) => {
            return Err(h);
        },
        Outcome::AlreadyCurrent => {},
        _ => {
            return Err(Hold::BaselineUnproven);
        },
    }
    let b = match baseline {
        Some(b) => b,
        None => {
            return Err(Hold::BaselineUnproven);
        },
    };
    let c = match current {
        Some(c) => c,
        None => {
            return Err(Hold::TargetErased);
        },
    };
    let row = match &c.native {
        Doc::Object(fields) => fields,
        Doc::Scalar(_) => {
            return Err(Hold::BaselineUnproven);
        },
    };
    match row_check(scope, c, row, source) {
        Some(h) => {
            return Err(h);
        },
        None => {},
    }
    let mut after = copy_object(row);
    let (kind, completions, reopens) = match content_update(&mut after, source, members) {
        Err(h) => {
            return Err(h);
        },
        Ok(staged) => staged,
    };
    match put_time(&mut after, "updated_at", Some(source.updated)) {
        Err(h) => {
            return Err(h);
        },
        Ok(()) => {},
    }
    let proposed = Doc::Object(copy_object(&after));
    match compare_native(Some(b), Some(c), &proposed, true, true) {
        Outcome::AlreadyCurrent => Ok(
            Proposal {
                kind,
                target: c.target_id,
                person: c.person_id,
                expected_revision: c.revision,
                expected_head: c.head_id,
                after: proposed,
                counts: counts_of(0, 0, 1, completions, reopens),
            },
        ),
        Outcome::Update => {
            put(&mut after, "correlation_id".as_bytes(), id_val(scope.correlation));
            Ok(
                Proposal {
                    kind,
                    target: c.target_id,
                    person: c.person_id,
                    expected_revision: c.revision,
                    expected_head: c.head_id,
                    after: Doc::Object(after),
                    counts: counts_of(0, 1, 0, completions, reopens),
                },
            )
        },
        Outcome::Held(h) => Err(h),
        Outcome::Insert => Err(Hold::BaselineUnproven),
    }
}


// ---------------------------------------------------------------------------
// Laws.

/// The fields an update may write.
pub open spec fn written(k: Seq<u8>) -> bool {
    k == name("body") || k == name("author_user_id") || k == name("title") || k == name("kind") || k
        == name("created_by_user_id") || k == name("assignee_user_id") || k == name("due_at") || k
        == name("completed_at") || k == name("completed_by_user_id") || k == name("updated_at") || k
        == name("correlation_id")
}

proof fn lemma_put_time_keeps(m: Map<Seq<u8>, ValueView>, k: &str, desired: Option<Instant>)
    ensures
        put_time_spec(m, k, desired) matches Ok(a) ==> (forall|x: Seq<u8>|
            #![trigger a.contains_key(x)]
            m.contains_key(x) ==> a.contains_key(x)) && (forall|x: Seq<u8>|
            #![trigger a[x]]
            x != name(k) && m.contains_key(x) ==> a[x] == m[x]),
{
}

/// An accepted update keeps every field of the current row, and changes only
/// the source-owned content fields, the update time and the correlation:
/// identity, creation time, revision and local fields stay as they are.
pub proof fn law_update_keeps_unowned_fields(
    scope: Scope,
    baseline: Option<Baseline<Doc>>,
    current: Option<Current<Doc>>,
    source: Source,
    members: Members,
    first_coverage: bool,
)
    ensures
        spec_update(scope, baseline, current, source, members, first_coverage) matches Ok(p) ==> (
        current matches Some(c) && c.native@ matches DocView::Object(row) && p.after matches DocView::Object(
            a,
        ) && (forall|k: Seq<u8>| row.contains_key(k) ==> #[trigger] a.contains_key(k)) && (forall|
            k: Seq<u8>,
        | row.contains_key(k) && !written(k) ==> #[trigger] a[k] == row[k])),
{
    if let Ok(p) = spec_update(scope, baseline, current, source, members, first_coverage) {
        let c = current->0;
        let row = c.native@->Object_0;
        let st = content_stage(row, source, members)->Ok_0;
        lemma_put_time_keeps(st.after, "updated_at", Some(source.updated));
        match source.content {
            Content::Note { .. } => {},
            Content::Task { title, kind, creator, assignee, due, completed } => {
                let a1 = row.insert(name("title"), string_value(title)).insert(
                    name("kind"),
                    string_value(kind),
                ).insert(name("created_by_user_id"), opt_id_value(creator)).insert(
                    name("assignee_user_id"),
                    opt_id_value(assignee),
                );
                lemma_put_time_keeps(a1, "due_at", due);
                let a2 = put_time_spec(a1, "due_at", due)->Ok_0;
                lemma_put_time_keeps(a2, "completed_at", completed);
            },
        }
    }
}

/// An identical source never writes: when the proposal is already current its
/// row is exactly the current row, correlation included.
pub proof fn law_already_current_writes_nothing(
    scope: Scope,
    baseline: Option<Baseline<Doc>>,
    current: Option<Current<Doc>>,
    source: Source,
    members: Members,
    first_coverage: bool,
)
    ensures
        spec_update(scope, baseline, current, source, members, first_coverage) matches Ok(p) ==> (
        p.counts.already_current == 1 <==> p.counts.updates == 0) && (p.counts.already_current == 1
            ==> (current matches Some(c) && p.after == c.native@)),
{
}

/// An accepted task update never follows a native completion actor, and it
/// counts a completion or a reopening exactly when the source's completion
/// state differs from the row's.
pub proof fn law_completion_is_exact_and_never_attributed(
    scope: Scope,
    baseline: Option<Baseline<Doc>>,
    current: Option<Current<Doc>>,
    source: Source,
    members: Members,
    first_coverage: bool,
)
    requires
        source.content is Task,
    ensures
        spec_update(scope, baseline, current, source, members, first_coverage) matches Ok(p) ==> (
        current matches Some(c) && (c.native@ matches DocView::Object(row) && (field(row, "completed_by_user_id")
            == ValueView::Null && (read_time(field(row, "completed_at")) matches Ok(was) && p.counts.task_completions
            == (if was is None && source.content->completed is Some {
            1u64
        } else {
            0u64
        }) && p.counts.task_reopens == (if was is Some && source.content->completed is None {
            1u64
        } else {
            0u64
        }))))),
{
}

/// An accepted update that writes anything was proven owned, is addressed to
/// the current row at its revision and head, and stamps the refresh's
/// correlation on the row it writes.
pub proof fn law_update_writes_only_owned_rows_under_its_correlation(
    scope: Scope,
    baseline: Option<Baseline<Doc>>,
    current: Option<Current<Doc>>,
    source: Source,
    members: Members,
    first_coverage: bool,
)
    ensures
        spec_update(scope, baseline, current, source, members, first_coverage) matches Ok(p) ==> {
            &&& current matches Some(c) && p.target == c.target_id && p.person == c.person_id
                && p.expected_revision == c.revision && p.expected_head == c.head_id
            &&& p.counts.updates == 1 ==> (baseline matches Some(b) && b.owned) && (p.after matches DocView::Object(
                a,
            ) && a.contains_key(name("correlation_id")) && a[name("correlation_id")] == id_value(
                scope.correlation,
            ))
        },
{
}

/// The field names a task or note row is written under are distinct.
proof fn lemma_row_names_distinct()
    ensures
        name("title") != name("kind"),
        name("title") != name("created_by_user_id"),
        name("title") != name("assignee_user_id"),
        name("title") != name("due_at"),
        name("title") != name("completed_at"),
        name("title") != name("completed_by_user_id"),
        name("kind") != name("created_by_user_id"),
        name("kind") != name("assignee_user_id"),
        name("kind") != name("due_at"),
        name("kind") != name("completed_at"),
        name("kind") != name("completed_by_user_id"),
        name("created_by_user_id") != name("assignee_user_id"),
        name("created_by_user_id") != name("due_at"),
        name("created_by_user_id") != name("completed_at"),
        name("created_by_user_id") != name("completed_by_user_id"),
        name("assignee_user_id") != name("due_at"),
        name("assignee_user_id") != name("completed_at"),
        name("assignee_user_id") != name("completed_by_user_id"),
        name("body") != name("author_user_id"),
        name("updated_at") != name("title") && name("updated_at") != name("kind") && name("updated_at") != name(
            "created_by_user_id",
        ) && name("updated_at") != name("assignee_user_id") && name("updated_at") != name("body")
            && name("updated_at") != name("author_user_id"),
        name("correlation_id") != name("title") && name("correlation_id") != name("kind") && name("correlation_id")
            != name("created_by_user_id") && name("correlation_id") != name("assignee_user_id") && name(
            "correlation_id",
        ) != name("body") && name("correlation_id") != name("author_user_id"),
{
    reveal_strlit("title");
    reveal_strlit("kind");
    reveal_strlit("created_by_user_id");
    reveal_strlit("assignee_user_id");
    reveal_strlit("due_at");
    reveal_strlit("completed_at");
    reveal_strlit("completed_by_user_id");
    reveal_strlit("body");
    reveal_strlit("author_user_id");
    reveal_strlit("updated_at");
    reveal_strlit("correlation_id");
    broadcast use vstd::string::is_ascii_spec_bytes;
    assert(vstd::string::is_ascii("updated_at"));
    assert(vstd::string::is_ascii("correlation_id"));
    assert(name("updated_at").len() == 10);
    assert(name("correlation_id").len() == 14);
    assert("correlation_id"@[0] == 'c' && "author_user_id"@[0] == 'a');
    assert(name("correlation_id")[0] == ("correlation_id"@[0] as u8));
    vstd::string::is_ascii_spec_bytes("author_user_id");
    vstd::string::is_ascii_spec_bytes("correlation_id");
    assert(name("author_user_id")[0] == ("author_user_id"@[0] as u8));
    assert(name("correlation_id")[0] != name("author_user_id")[0]);
    assert(vstd::string::is_ascii("title"));
    assert(vstd::string::is_ascii("kind"));
    assert(vstd::string::is_ascii("created_by_user_id"));
    assert(vstd::string::is_ascii("assignee_user_id"));
    assert(vstd::string::is_ascii("due_at"));
    assert(vstd::string::is_ascii("completed_at"));
    assert(vstd::string::is_ascii("completed_by_user_id"));
    assert(vstd::string::is_ascii("body"));
    assert(vstd::string::is_ascii("author_user_id"));
    assert(name("title").len() == 5);
    assert(name("kind").len() == 4);
    assert(name("created_by_user_id").len() == 18);
    assert(name("assignee_user_id").len() == 16);
    assert(name("due_at").len() == 6);
    assert(name("completed_at").len() == 12);
    assert(name("completed_by_user_id").len() == 20);
    assert(name("body").len() == 4);
    assert(name("author_user_id").len() == 14);
}

/// An accepted new note or task carries the source content: a note its body
/// and author, a task its title, kind, creator and assignee, each under its
/// own field.
pub proof fn law_insert_carries_the_source_content(
    scope: Scope,
    person: u128,
    target: u128,
    source: Source,
    members: Members,
    identity_consumed: bool,
    first_coverage: bool,
)
    ensures
        spec_insert(scope, person, target, source, members, identity_consumed, first_coverage) matches Ok(p) ==> (
        p.after matches DocView::Object(a) && match source.content {
            Content::Note { body, author } => a.contains_key(name("body")) && a[name("body")] == string_value(body)
                && a.contains_key(name("author_user_id")) && a[name("author_user_id")] == opt_id_value(author),
            Content::Task { title, kind, creator, assignee, .. } => a.contains_key(name("title")) && a[name("title")]
                == string_value(title) && a.contains_key(name("kind")) && a[name("kind")] == string_value(kind)
                && a.contains_key(name("created_by_user_id")) && a[name("created_by_user_id")] == opt_id_value(
                creator,
            ) && a.contains_key(name("assignee_user_id")) && a[name("assignee_user_id")] == opt_id_value(
                assignee,
            ),
        }),
{
    lemma_row_names_distinct();
}

/// An accepted update carries the source content in the same way.
#[verifier::spinoff_prover]
#[verifier::rlimit(60)]
pub proof fn law_update_carries_the_source_content(
    scope: Scope,
    baseline: Option<Baseline<Doc>>,
    current: Option<Current<Doc>>,
    source: Source,
    members: Members,
    first_coverage: bool,
)
    ensures
        spec_update(scope, baseline, current, source, members, first_coverage) matches Ok(p) ==> (
        p.after matches DocView::Object(a) && match source.content {
            Content::Note { body, author } => a.contains_key(name("body")) && a[name("body")] == string_value(body)
                && a.contains_key(name("author_user_id")) && a[name("author_user_id")] == opt_id_value(author),
            Content::Task { title, kind, creator, assignee, .. } => a.contains_key(name("title")) && a[name("title")]
                == string_value(title) && a.contains_key(name("kind")) && a[name("kind")] == string_value(kind)
                && a.contains_key(name("created_by_user_id")) && a[name("created_by_user_id")] == opt_id_value(
                creator,
            ) && a.contains_key(name("assignee_user_id")) && a[name("assignee_user_id")] == opt_id_value(
                assignee,
            ),
        }),
{
    lemma_row_names_distinct();
    if let Ok(p) = spec_update(scope, baseline, current, source, members, first_coverage) {
        let c = current->0;
        let row = c.native@->Object_0;
        let st = content_stage(row, source, members)->Ok_0;
        let a5 = put_time_spec(st.after, "updated_at", Some(source.updated))->Ok_0;
        lemma_put_time_keeps(st.after, "updated_at", Some(source.updated));
        let a = p.after->Object_0;
        assert(a == a5 || a == a5.insert(name("correlation_id"), id_value(scope.correlation)));
        match source.content {
            Content::Note { body, author } => {
                assert(st.after.contains_key(name("body")) && st.after[name("body")] == string_value(body));
                assert(st.after.contains_key(name("author_user_id")) && st.after[name("author_user_id")]
                    == opt_id_value(author));
                assert(a5.contains_key(name("body")) && a5[name("body")] == string_value(body));
                assert(a5.contains_key(name("author_user_id")) && a5[name("author_user_id")] == opt_id_value(author));
            },
            Content::Task { title, kind, creator, assignee, due, completed } => {
                let a1 = row.insert(name("title"), string_value(title)).insert(
                    name("kind"),
                    string_value(kind),
                ).insert(name("created_by_user_id"), opt_id_value(creator)).insert(
                    name("assignee_user_id"),
                    opt_id_value(assignee),
                );
                lemma_put_time_keeps(a1, "due_at", due);
                let a2 = put_time_spec(a1, "due_at", due)->Ok_0;
                lemma_put_time_keeps(a2, "completed_at", completed);
                let a3 = put_time_spec(a2, "completed_at", completed)->Ok_0;
                assert(st.after == a3.insert(name("completed_by_user_id"), ValueView::Null));
                assert(a3.contains_key(name("title")) && a3[name("title")] == string_value(title));
                assert(a3.contains_key(name("kind")) && a3[name("kind")] == string_value(kind));
                assert(a3.contains_key(name("created_by_user_id")) && a3[name("created_by_user_id")]
                    == opt_id_value(creator));
                assert(a3.contains_key(name("assignee_user_id")) && a3[name("assignee_user_id")]
                    == opt_id_value(assignee));
                assert(a5.contains_key(name("title")) && a5[name("title")] == string_value(title));
                assert(a5.contains_key(name("kind")) && a5[name("kind")] == string_value(kind));
                assert(a5.contains_key(name("created_by_user_id")) && a5[name("created_by_user_id")]
                    == opt_id_value(creator));
                assert(a5.contains_key(name("assignee_user_id")) && a5[name("assignee_user_id")]
                    == opt_id_value(assignee));
            },
        }
    }
}

/// A new activity starts at native revision one with no expected revision or
/// head, as one inserted unit whose counts reconcile.
pub proof fn law_insert_starts_a_fresh_row(
    scope: Scope,
    person: u128,
    target: u128,
    source: Source,
    members: Members,
    identity_consumed: bool,
    first_coverage: bool,
)
    ensures
        spec_insert(scope, person, target, source, members, identity_consumed, first_coverage) matches Ok(
            p,
        ) ==> (p.expected_revision == 0 && p.expected_head is None && p.target == target && p.person
            == person && p.counts == unit_counts(1, 0, 0, 0, 0) && super::model::spec_reconciles(
            p.counts,
        ) && !identity_consumed && first_coverage && p.after is Object),
{
}

} // verus!
