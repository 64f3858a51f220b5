//! Immutable exact-row recipes: which native table a write touches and which
//! before/after row images it expects. Images are drafted here; the database
//! then puts each one in its canonical form.
use super::activity_delta::{
    copy_object, copy_value, id_val, id_value, literal, name, object_map, put, string_val,
    string_value, time_val, time_value, Doc, DocView, Instant, Proposal, Value,
    ValueView,
};
use super::metadata_delta::{field_type_name, value_type, Change, ChangeView, CustomFieldValue, FieldType};
use super::metadata_delta::ValueView as FieldValue;
use super::model::{decimal_digits, decimal_text, Baseline};
use crate::bytes::push_all;
use crate::error::MigrationError;
use vstd::prelude::*;

verus! {

#[derive(Debug, Clone, Copy, PartialEq, Eq, Structural)]
pub enum Table {
    Tag,
    Field,
    Option,
    PersonTag,
    PersonValue,
    Note,
    Task,
}

pub open spec fn table_name(value: Table) -> Seq<char> {
    match value {
        Table::Tag => "tag"@,
        Table::Field => "custom_field"@,
        Table::Option => "custom_field_option"@,
        Table::PersonTag => "person_tag"@,
        Table::PersonValue => "person_custom_field_value"@,
        Table::Note => "note"@,
        Table::Task => "task"@,
    }
}

impl Table {
    pub fn name(self) -> (name: &'static str)
        ensures
            name@ == table_name(self),
    {
        match self {
            Table::Tag => "tag",
            Table::Field => "custom_field",
            Table::Option => "custom_field_option",
            Table::PersonTag => "person_tag",
            Table::PersonValue => "person_custom_field_value",
            Table::Note => "note",
            Table::Task => "task",
        }
    }
}

/// An exact-row write: the canonical row images before and after.
pub struct Recipe {
    pub table: Table,
    pub target: u128,
    pub expected_revision: Option<i64>,
    pub before: Option<Vec<u8>>,
    pub after: Option<Vec<u8>>,
}

#[derive(Debug, Clone, Copy, PartialEq, Eq, Structural)]
pub enum Operation {
    Insert,
    Update,
    Delete,
}

pub open spec fn operation_of(has_before: bool, has_after: bool) -> Operation {
    if !has_before {
        Operation::Insert
    } else if has_after {
        Operation::Update
    } else {
        Operation::Delete
    }
}

pub open spec fn operation_name(operation: Operation) -> Seq<char> {
    match operation {
        Operation::Insert => "INSERT"@,
        Operation::Update => "UPDATE"@,
        Operation::Delete => "DELETE"@,
    }
}

impl Recipe {
    /// The SQL operation of a recipe; a recipe always has a before or an after image.
    pub fn operation(&self) -> (name: &'static str)
        requires
            self.before is Some || self.after is Some,
        ensures
            name@ == operation_name(operation_of(self.before is Some, self.after is Some)),
    {
        match (&self.before, &self.after) {
            (None, _) => "INSERT",
            (Some(_), Some(_)) => "UPDATE",
            (Some(_), None) => "DELETE",
        }
    }
}

/// How a unit of a plan is drafted, by its disposition and kind.
#[derive(Debug, Clone, Copy, PartialEq, Eq, Structural)]
pub enum Route {
    /// Nothing to draft: no native write, or a history fact with its own guard.
    Skip,
    Activity(Table),
    Metadata,
    Catalog,
}

pub open spec fn route_of(disposition: Seq<char>, kind: Seq<char>) -> Result<Route, MigrationError> {
    if !(disposition == "insert"@ || disposition == "update"@) {
        Ok(Route::Skip)
    } else if kind == "note"@ {
        Ok(Route::Activity(Table::Note))
    } else if kind == "task"@ {
        Ok(Route::Activity(Table::Task))
    } else if kind == "metadata"@ {
        Ok(Route::Metadata)
    } else if kind == "catalog"@ {
        Ok(Route::Catalog)
    } else if kind == "event"@ || kind == "call"@ || kind == "text"@ {
        Ok(Route::Skip)
    } else {
        Err(MigrationError::Crypto)
    }
}

fn is_word(s: &str, word: &str) -> (same: bool)
    ensures
        same == (s@ == word@),
{
    s.to_owned() == word.to_owned()
}

pub fn route(disposition: &str, kind: &str) -> (r: Result<Route, MigrationError>)
    ensures
        r == route_of(disposition@, kind@),
{
    if !(is_word(disposition, "insert") || is_word(disposition, "update")) {
        Ok(Route::Skip)
    } else if is_word(kind, "note") {
        Ok(Route::Activity(Table::Note))
    } else if is_word(kind, "task") {
        Ok(Route::Activity(Table::Task))
    } else if is_word(kind, "metadata") {
        Ok(Route::Metadata)
    } else if is_word(kind, "catalog") {
        Ok(Route::Catalog)
    } else if is_word(kind, "event") || is_word(kind, "call") || is_word(kind, "text") {
        Ok(Route::Skip)
    } else {
        Err(MigrationError::Crypto)
    }
}

/// Who drafts and when: the organization, the bundle (the correlation of every
/// write), the executing user and the plan's creation time.
#[derive(Debug, Clone, Copy)]
pub struct DraftContext {
    pub organization: u128,
    pub bundle: u128,
    pub actor: u128,
    pub timestamp: Instant,
}

/// An exact-row write with its row images as drafted.
#[derive(Debug, Clone)]
pub struct Draft {
    pub table: Table,
    pub target: u128,
    pub expected_revision: Option<i64>,
    pub before: Option<Doc>,
    pub after: Option<Doc>,
}

pub struct DraftView {
    pub table: Table,
    pub target: u128,
    pub expected_revision: Option<i64>,
    pub before: Option<DocView>,
    pub after: Option<DocView>,
}

pub open spec fn opt_doc(d: Option<Doc>) -> Option<DocView> {
    match d {
        Some(x) => Some(x@),
        None => None,
    }
}

pub open spec fn draft_view(d: Draft) -> DraftView {
    DraftView {
        table: d.table,
        target: d.target,
        expected_revision: d.expected_revision,
        before: opt_doc(d.before),
        after: opt_doc(d.after),
    }
}

pub open spec fn drafts_view(ds: Seq<Draft>) -> Seq<DraftView> {
    Seq::new(ds.len(), |i: int| draft_view(ds[i]))
}

pub open spec fn docs_view(ds: Seq<Option<Doc>>) -> Seq<Option<DocView>> {
    Seq::new(ds.len(), |i: int| opt_doc(ds[i]))
}

fn copy_doc(d: &Doc) -> (copy: Doc)
    requires
        d.wf(),
    ensures
        copy@ == d@,
        copy.wf(),
{
    match d {
        Doc::Object(fields) => Doc::Object(copy_object(fields)),
        Doc::Scalar(v) => Doc::Scalar(copy_value(v)),
    }
}

// ---------------------------------------------------------------------------
// Activity rows.

/// A note or task write: from the baseline's row, if any, to the proposed row.
pub open spec fn activity_result(table: Table, proposal: Proposal, baseline: Option<Baseline<Doc>>) -> DraftView {
    DraftView {
        table,
        target: proposal.target,
        expected_revision: match baseline {
            Some(b) => Some(b.revision),
            None => None,
        },
        before: match baseline {
            Some(b) => Some(b.native@),
            None => None,
        },
        after: Some(proposal.after@),
    }
}

pub fn activity_draft(table: Table, proposal: &Proposal, baseline: &Option<Baseline<Doc>>) -> (d: Draft)
    requires
        proposal.after.wf(),
        baseline matches Some(b) ==> b.native.wf(),
    ensures
        draft_view(d) == activity_result(table, *proposal, *baseline),
{
    let (revision, before) = match baseline {
        Some(b) => (Some(b.revision), Some(copy_doc(&b.native))),
        None => (None, None),
    };
    Draft {
        table,
        target: proposal.target,
        expected_revision: revision,
        before,
        after: Some(copy_doc(&proposal.after)),
    }
}

// ---------------------------------------------------------------------------
// Person metadata rows.

/// Names the JSON text serde writes for the `chrono::NaiveDate` of common-era
/// day `day` (its `Debug` form), if chrono can represent that day.
pub uninterp spec fn date_json(day: i32) -> Option<Seq<u8>>;

/// Calls `chrono::NaiveDate::from_num_days_from_ce_opt` and writes the date as
/// serde does. The contract only names the result.
#[verifier::external_body]
fn write_date(day: i32) -> (text: Option<Vec<u8>>)
    ensures
        match text {
            Some(t) => date_json(day) == Some(t@),
            None => date_json(day) is None,
        },
{
    let date = chrono::NaiveDate::from_num_days_from_ce_opt(day)?;
    Some(format!("{:?}", date).into_bytes())
}

/// The native row, the row key and whether the write deletes, for one change.
pub open spec fn change_row(c: ChangeView) -> (Table, u128, bool) {
    match c {
        ChangeView::AddTag(t) => (Table::PersonTag, t, false),
        ChangeView::RemoveTag(t) => (Table::PersonTag, t, true),
        ChangeView::SetField(f, _) => (Table::PersonValue, f, false),
        ChangeView::ClearField(f) => (Table::PersonValue, f, true),
    }
}

/// Which row of the person a change writes; the caller reads its current image.
pub fn change_row_of(change: &Change) -> (r: (Table, u128, bool))
    ensures
        r == change_row(change@),
{
    match change {
        Change::AddTag(t) => (Table::PersonTag, *t, false),
        Change::RemoveTag(t) => (Table::PersonTag, *t, true),
        Change::SetField(f, _) => (Table::PersonValue, *f, false),
        Change::ClearField(f) => (Table::PersonValue, *f, true),
    }
}

/// The column and JSON value that store a custom-field value.
pub open spec fn field_column(v: FieldValue) -> Option<(Seq<u8>, ValueView)> {
    match v {
        FieldValue::Text(s) => Some((name("text_value"), ValueView::Text(vstd::utf8::encode_utf8(s)))),
        FieldValue::Number(s) => Some(
            (name("number_value"), ValueView::Number(vstd::utf8::encode_utf8(s))),
        ),
        FieldValue::Date(d) => match date_json(d) {
            Some(t) => Some((name("date_value"), ValueView::Text(t))),
            None => None,
        },
        FieldValue::Choice(o) => Some((name("option_id"), id_value(o))),
    }
}

pub open spec fn tag_row(ctx: DraftContext, person: u128, tag: u128, time: ValueView) -> Map<
    Seq<u8>,
    ValueView,
> {
    Map::empty().insert(name("organization_id"), id_value(ctx.organization)).insert(
        name("person_id"),
        id_value(person),
    ).insert(name("tag_id"), id_value(tag)).insert(name("added_by_user_id"), id_value(ctx.actor)).insert(
        name("created_at"),
        time,
    )
}

/// The row a value starts from when the person has none for the field yet.
pub open spec fn fresh_value_row(
    ctx: DraftContext,
    person: u128,
    field: u128,
    t: FieldType,
    time: ValueView,
) -> Map<Seq<u8>, ValueView> {
    Map::empty().insert(name("organization_id"), id_value(ctx.organization)).insert(
        name("person_id"),
        id_value(person),
    ).insert(name("field_id"), id_value(field)).insert(
        name("field_type"),
        ValueView::Text(vstd::utf8::encode_utf8(field_type_name(t))),
    ).insert(name("created_at"), time)
}

/// A value row: every value column cleared, the new one set, and the write
/// attributed to the migration.
pub open spec fn value_row(
    ctx: DraftContext,
    base: Map<Seq<u8>, ValueView>,
    column: (Seq<u8>, ValueView),
    time: ValueView,
) -> Map<Seq<u8>, ValueView> {
    base.insert(name("text_value"), ValueView::Null).insert(name("number_value"), ValueView::Null).insert(
        name("date_value"),
        ValueView::Null,
    ).insert(name("option_id"), ValueView::Null).insert(column.0, column.1).insert(
        name("updated_by_user_id"),
        id_value(ctx.actor),
    ).insert(name("updated_at"), time).insert(name("origin"), ValueView::Text(name("migration"))).insert(
        name("correlation_id"),
        id_value(ctx.bundle),
    )
}

/// The draft of one change at `revision`, given the row's current image.
#[verifier::opaque]
pub open spec fn change_draft(
    ctx: DraftContext,
    person: u128,
    revision: i64,
    c: ChangeView,
    before: Option<DocView>,
) -> Result<DraftView, MigrationError> {
    let (table, target, delete) = change_row(c);
    if delete {
        if before is None {
            Err(MigrationError::Conflict)
        } else {
            Ok(DraftView { table, target, expected_revision: Some(revision), before, after: None })
        }
    } else {
        match time_value(Some(ctx.timestamp)) {
            None => Err(MigrationError::Crypto),
            Some(time) => match c {
                ChangeView::AddTag(t) => Ok(
                    DraftView {
                        table,
                        target,
                        expected_revision: Some(revision),
                        before,
                        after: Some(DocView::Object(tag_row(ctx, person, t, time))),
                    },
                ),
                ChangeView::SetField(f, v) => match field_column(v) {
                    None => Err(MigrationError::Crypto),
                    Some(column) => {
                        let base = match before {
                            Some(DocView::Object(m)) => m,
                            Some(DocView::Scalar(_)) => Map::empty(),
                            None => fresh_value_row(ctx, person, f, value_type(v), time),
                        };
                        Ok(
                            DraftView {
                                table,
                                target,
                                expected_revision: Some(revision),
                                before,
                                after: Some(DocView::Object(value_row(ctx, base, column, time))),
                            },
                        )
                    },
                },
                _ => Err(MigrationError::Crypto),
            },
        }
    }
}

/// The drafts of the first `n` changes; change `i` expects person revision
/// `expected + i`.
pub open spec fn drafts_upto(
    ctx: DraftContext,
    person: u128,
    expected: i64,
    changes: Seq<ChangeView>,
    befores: Seq<Option<DocView>>,
    n: nat,
) -> Result<Seq<DraftView>, MigrationError>
    decreases n,
{
    if n == 0 {
        Ok(Seq::empty())
    } else {
        match drafts_upto(ctx, person, expected, changes, befores, (n - 1) as nat) {
            Err(e) => Err(e),
            Ok(ds) => if n - 1 > i64::MAX || expected + (n - 1) > i64::MAX {
                Err(MigrationError::Crypto)
            } else {
                match change_draft(
                    ctx,
                    person,
                    (expected + (n - 1)) as i64,
                    changes[n - 1],
                    befores[n - 1],
                ) {
                    Err(e) => Err(e),
                    Ok(d) => Ok(ds.push(d)),
                }
            },
        }
    }
}

proof fn lemma_drafts_error_persists(
    ctx: DraftContext,
    person: u128,
    expected: i64,
    changes: Seq<ChangeView>,
    befores: Seq<Option<DocView>>,
    k: nat,
    n: nat,
)
    requires
        k <= n,
        drafts_upto(ctx, person, expected, changes, befores, k) is Err,
    ensures
        drafts_upto(ctx, person, expected, changes, befores, n) == drafts_upto(
            ctx,
            person,
            expected,
            changes,
            befores,
            k,
        ),
    decreases n - k,
{
    if n > k {
        lemma_drafts_error_persists(ctx, person, expected, changes, befores, k, (n - 1) as nat);
    }
}

/// The drafts of a person proposal: none when the person's metadata revision
/// moved since the proposal (the unit will be held), else one per change.
pub open spec fn metadata_result(
    ctx: DraftContext,
    person: u128,
    expected: i64,
    current: Option<i64>,
    changes: Seq<ChangeView>,
    befores: Seq<Option<DocView>>,
) -> Result<Seq<DraftView>, MigrationError> {
    if current != Some(expected) {
        Ok(Seq::empty())
    } else {
        drafts_upto(ctx, person, expected, changes, befores, changes.len())
    }
}

proof fn lemma_drafts_shape(
    ctx: DraftContext,
    person: u128,
    expected: i64,
    changes: Seq<ChangeView>,
    befores: Seq<Option<DocView>>,
    n: nat,
)
    requires
        drafts_upto(ctx, person, expected, changes, befores, n) is Ok,
    ensures
        ({
            let ds = drafts_upto(ctx, person, expected, changes, befores, n)->Ok_0;
            &&& ds.len() == n
            &&& forall|i: int|
                0 <= i < n ==> {
                    let d = #[trigger] ds[i];
                    &&& d.expected_revision matches Some(r) && r == expected + i
                    &&& d.table == change_row(changes[i]).0
                    &&& d.target == change_row(changes[i]).1
                    &&& (d.after is None <==> change_row(changes[i]).2)
                }
        }),
    decreases n,
{
    reveal(change_draft);
    if n > 0 {
        lemma_drafts_shape(ctx, person, expected, changes, befores, (n - 1) as nat);
    }
}

/// The drafts of a current proposal follow its changes one for one and in
/// order: draft `i` writes the row change `i` names, expects person revision
/// `expected + i`, and drops the row exactly for a removal or a clear.
pub proof fn law_metadata_drafts_follow_the_changes(
    ctx: DraftContext,
    person: u128,
    expected: i64,
    current: Option<i64>,
    changes: Seq<ChangeView>,
    befores: Seq<Option<DocView>>,
)
    requires
        current == Some(expected),
        metadata_result(ctx, person, expected, current, changes, befores) is Ok,
    ensures
        ({
            let ds = metadata_result(ctx, person, expected, current, changes, befores)->Ok_0;
            &&& ds.len() == changes.len()
            &&& forall|i: int|
                0 <= i < changes.len() ==> {
                    let d = #[trigger] ds[i];
                    &&& d.expected_revision matches Some(r) && r == expected + i
                    &&& d.table == change_row(changes[i]).0
                    &&& d.target == change_row(changes[i]).1
                    &&& (d.after is None <==> change_row(changes[i]).2)
                }
        }),
{
    lemma_drafts_shape(ctx, person, expected, changes, befores, changes.len());
}

/// A unit yields no draft when it writes nothing natively (any disposition
/// but an insert or an update), when it is a history fact (history keeps its
/// own guard), or when it is a person proposal whose metadata revision moved
/// since it was proposed: a stale proposal never borrows the changed row as
/// its before-state.
pub proof fn law_skipped_and_stale_units_draft_nothing(
    disposition: Seq<char>,
    kind: Seq<char>,
    ctx: DraftContext,
    person: u128,
    expected: i64,
    current: Option<i64>,
    changes: Seq<ChangeView>,
    befores: Seq<Option<DocView>>,
)
    ensures
        !(disposition == "insert"@ || disposition == "update"@) ==> route_of(disposition, kind) == Ok::<
            Route,
            MigrationError,
        >(Route::Skip),
        kind == "event"@ || kind == "call"@ || kind == "text"@ ==> route_of(disposition, kind) == Ok::<
            Route,
            MigrationError,
        >(Route::Skip),
        current != Some(expected) ==> metadata_result(ctx, person, expected, current, changes, befores)
            == Ok::<Seq<DraftView>, MigrationError>(Seq::empty()),
{
    reveal_strlit("note");
    reveal_strlit("task");
    reveal_strlit("metadata");
    reveal_strlit("catalog");
    reveal_strlit("event");
    reveal_strlit("call");
    reveal_strlit("text");
    assert("note"@.len() == 4 && "note"@[0] == 'n');
    assert("task"@.len() == 4 && "task"@[1] == 'a');
    assert("metadata"@.len() == 8 && "catalog"@.len() == 7 && "event"@.len() == 5);
    assert("call"@.len() == 4 && "call"@[0] == 'c');
    assert("text"@.len() == 4 && "text"@[0] == 't' && "text"@[1] == 'e');
}

fn field_column_of(v: &CustomFieldValue) -> (r: Option<(Vec<u8>, Value)>)
    ensures
        match r {
            Some(c) => field_column(v@) == Some((c.0@, c.1@)),
            None => field_column(v@) is None,
        },
{
    match v {
        CustomFieldValue::Text(s) => Some((copy_name("text_value"), string_val(s))),
        CustomFieldValue::Number(s) => Some(
            (copy_name("number_value"), Value::Number(super::activity_delta::copy_bytes(s.as_str().as_bytes()))),
        ),
        CustomFieldValue::Date(d) => match write_date(*d) {
            Some(t) => Some((copy_name("date_value"), Value::Text(t))),
            None => None,
        },
        CustomFieldValue::Choice(o) => Some((copy_name("option_id"), id_val(*o))),
    }
}

fn copy_name(s: &str) -> (n: Vec<u8>)
    ensures
        n@ == name(s),
{
    super::activity_delta::copy_bytes(s.as_bytes())
}

/// A current row image the drafting can start from: a well-formed document,
/// and for a value write an object or null (a value is set by name in it).
pub open spec fn usable_image(c: ChangeView, before: Option<Doc>) -> bool {
    &&& (before matches Some(d) ==> d.wf())
    &&& (c is SetField ==> match before {
        Some(Doc::Scalar(v)) => v@ is Null,
        _ => true,
    })
}

fn change_draft_of(
    ctx: &DraftContext,
    person: u128,
    revision: i64,
    change: &Change,
    before: &Option<Doc>,
) -> (r: Result<Draft, MigrationError>)
    requires
        usable_image(change@, *before),
    ensures
        match r {
            Ok(d) => change_draft(*ctx, person, revision, change@, opt_doc(*before)) == Ok::<
                DraftView,
                MigrationError,
            >(draft_view(d)),
            Err(e) => change_draft(*ctx, person, revision, change@, opt_doc(*before)) == Err::<
                DraftView,
                MigrationError,
            >(e),
        },
{
    reveal(change_draft);
    let (table, target, delete) = change_row_of(change);
    let prior = match before {
        Some(d) => Some(copy_doc(d)),
        None => None,
    };
    if delete {
        if prior.is_none() {
            return Err(MigrationError::Conflict);
        }
        return Ok(Draft { table, target, expected_revision: Some(revision), before: prior, after: None });
    }
    let time = match time_val(Some(ctx.timestamp)) {
        Some(t) => t,
        None => return Err(MigrationError::Crypto),
    };
    match change {
        Change::AddTag(t) => {
            let mut row: Vec<(Vec<u8>, Value)> = Vec::new();
            assert(object_map(row@) =~= Map::<Seq<u8>, ValueView>::empty());
            put(&mut row, "organization_id".as_bytes(), id_val(ctx.organization));
            put(&mut row, "person_id".as_bytes(), id_val(person));
            put(&mut row, "tag_id".as_bytes(), id_val(*t));
            put(&mut row, "added_by_user_id".as_bytes(), id_val(ctx.actor));
            put(&mut row, "created_at".as_bytes(), time);
            Ok(
                Draft {
                    table,
                    target,
                    expected_revision: Some(revision),
                    before: prior,
                    after: Some(Doc::Object(row)),
                },
            )
        },
        Change::SetField(f, v) => {
            let (column, value) = match field_column_of(v) {
                Some(c) => c,
                None => return Err(MigrationError::Crypto),
            };
            let mut row: Vec<(Vec<u8>, Value)> = match before {
                Some(Doc::Object(fields)) => copy_object(fields),
                Some(Doc::Scalar(_)) => Vec::new(),
                None => {
                    let mut fresh: Vec<(Vec<u8>, Value)> = Vec::new();
                    assert(object_map(fresh@) =~= Map::<Seq<u8>, ValueView>::empty());
                    put(&mut fresh, "organization_id".as_bytes(), id_val(ctx.organization));
                    put(&mut fresh, "person_id".as_bytes(), id_val(person));
                    put(&mut fresh, "field_id".as_bytes(), id_val(*f));
                    put(&mut fresh, "field_type".as_bytes(), literal(v.field_type().as_str()));
                    put(&mut fresh, "created_at".as_bytes(), copy_value(&time));
                    fresh
                },
            };
            assert(before matches Some(Doc::Scalar(_)) ==> object_map(row@) =~= Map::<
                Seq<u8>,
                ValueView,
            >::empty());
            put(&mut row, "text_value".as_bytes(), Value::Null);
            put(&mut row, "number_value".as_bytes(), Value::Null);
            put(&mut row, "date_value".as_bytes(), Value::Null);
            put(&mut row, "option_id".as_bytes(), Value::Null);
            put(&mut row, column.as_slice(), value);
            put(&mut row, "updated_by_user_id".as_bytes(), id_val(ctx.actor));
            put(&mut row, "updated_at".as_bytes(), time);
            put(&mut row, "origin".as_bytes(), literal("migration"));
            put(&mut row, "correlation_id".as_bytes(), id_val(ctx.bundle));
            Ok(
                Draft {
                    table,
                    target,
                    expected_revision: Some(revision),
                    before: prior,
                    after: Some(Doc::Object(row)),
                },
            )
        },
        _ => Err(MigrationError::Crypto),
    }
}

/// Drafts the person rows of a metadata proposal. `current` is the person's
/// metadata revision now; `befores[i]` is the current image of the row that
/// change `i` writes (see `change_row_of`).
pub fn metadata_drafts(
    ctx: &DraftContext,
    person: u128,
    expected_revision: i64,
    current: Option<i64>,
    changes: &Vec<Change>,
    befores: &Vec<Option<Doc>>,
) -> (r: Result<Vec<Draft>, MigrationError>)
    requires
        befores@.len() == changes@.len(),
        forall|i: int| 0 <= i < befores@.len() ==> usable_image(changes@[i]@, #[trigger] befores@[i]),
    ensures
        match r {
            Ok(ds) => metadata_result(
                *ctx,
                person,
                expected_revision,
                current,
                changes@.map_values(|c: Change| c@),
                docs_view(befores@),
            ) == Ok::<Seq<DraftView>, MigrationError>(drafts_view(ds@)),
            Err(e) => metadata_result(
                *ctx,
                person,
                expected_revision,
                current,
                changes@.map_values(|c: Change| c@),
                docs_view(befores@),
            ) == Err::<Seq<DraftView>, MigrationError>(e),
        },
{
    let ghost cs = changes@.map_values(|c: Change| c@);
    let ghost bs = docs_view(befores@);
    let stale = match current {
        Some(c) => c != expected_revision,
        None => true,
    };
    if stale {
        let out: Vec<Draft> = Vec::new();
        assert(drafts_view(out@) =~= Seq::<DraftView>::empty());
        return Ok(out);
    }
    let mut out: Vec<Draft> = Vec::new();
    let mut i: usize = 0;
    assert(drafts_view(out@) =~= Seq::<DraftView>::empty());
    while i < changes.len()
        invariant
            i <= changes@.len(),
            befores@.len() == changes@.len(),
            cs == changes@.map_values(|c: Change| c@),
            bs == docs_view(befores@),
            forall|k: int| 0 <= k < befores@.len() ==> usable_image(changes@[k]@, #[trigger] befores@[k]),
            current == Some(expected_revision),
            drafts_upto(*ctx, person, expected_revision, cs, bs, i as nat) == Ok::<
                Seq<DraftView>,
                MigrationError,
            >(drafts_view(out@)),
        decreases changes.len() - i,
    {
        assert(cs[i as int] == changes@[i as int]@);
        assert(bs[i as int] == opt_doc(befores@[i as int]));
        if i as u64 > i64::MAX as u64 {
            proof {
                lemma_drafts_error_persists(*ctx, person, expected_revision, cs, bs, (i + 1) as nat, cs.len());
            }
            return Err(MigrationError::Crypto);
        }
        let offset: i64 = i as i64;
        let revision = match expected_revision.checked_add(offset) {
            Some(r) => r,
            None => {
                proof {
                    lemma_drafts_error_persists(*ctx, person, expected_revision, cs, bs, (i + 1) as nat, cs.len());
                }
                return Err(MigrationError::Crypto);
            },
        };
        let d = match change_draft_of(ctx, person, revision, &changes[i], &befores[i]) {
            Ok(d) => d,
            Err(e) => {
                proof {
                    lemma_drafts_error_persists(*ctx, person, expected_revision, cs, bs, (i + 1) as nat, cs.len());
                }
                return Err(e);
            },
        };
        let ghost prior = out@;
        out.push(d);
        assert(drafts_view(out@) =~= drafts_view(prior).push(draft_view(d)));
        i = i + 1;
    }
    Ok(out)
}

// ---------------------------------------------------------------------------
// Catalog rows.

/// The decimal text of a signed position.
pub open spec fn signed_digits(x: int) -> Seq<u8> {
    if x < 0 {
        seq![45u8] + decimal_digits((-x) as nat)
    } else {
        decimal_digits(x as nat)
    }
}

fn i32_text(x: i32) -> (t: Vec<u8>)
    ensures
        t@ == signed_digits(x as int),
{
    if x < 0 {
        let mut t: Vec<u8> = Vec::new();
        t.push(45u8);
        let magnitude: i64 = -(x as i64);
        let digits = decimal_text(magnitude as u64);
        push_all(&mut t, digits.as_slice());
        assert(t@ =~= seq![45u8] + decimal_digits((-(x as int)) as nat));
        t
    } else {
        decimal_text(x as u64)
    }
}

pub open spec fn opt_text(s: Option<String>) -> ValueView {
    match s {
        Some(v) => string_value(v),
        None => ValueView::Null,
    }
}

pub open spec fn position_value(p: int) -> ValueView {
    ValueView::Number(signed_digits(p))
}

pub open spec fn fits_i32(x: int) -> bool {
    i32::MIN <= x <= i32::MAX
}

pub open spec fn insert_view(table: Table, target: u128, row: Map<Seq<u8>, ValueView>) -> DraftView {
    DraftView { table, target, expected_revision: None, before: None, after: Some(DocView::Object(row)) }
}

/// What the source defines for a catalog destination still to be created.
#[derive(Debug, Clone)]
pub struct CatalogSource {
    pub kind: String,
    pub label: Option<String>,
    pub field_type: Option<String>,
    pub machine_name: Option<String>,
    /// The field an option belongs to, once that field has its destination.
    pub parent: Option<u128>,
    /// The option's ordinal among its field's choices.
    pub element: Option<u32>,
}

/// The row that creates a catalog destination. New fields follow the
/// organization's last field (`max_position`) in unit order; new options follow
/// their field's last option in source order.
pub open spec fn catalog_result(
    ctx: DraftContext,
    target: u128,
    source: CatalogSource,
    unit_position: i64,
    max_position: i32,
) -> Result<DraftView, MigrationError> {
    match source.label {
        None => Err(MigrationError::Crypto),
        Some(label) => match time_value(Some(ctx.timestamp)) {
            None => Err(MigrationError::Crypto),
            Some(time) => if source.kind@ == "tag"@ {
                Ok(
                    insert_view(
                        Table::Tag,
                        target,
                        Map::empty().insert(name("id"), id_value(target)).insert(
                            name("organization_id"),
                            id_value(ctx.organization),
                        ).insert(name("name"), string_value(label)).insert(
                            name("created_by_user_id"),
                            id_value(ctx.actor),
                        ).insert(name("created_at"), time).insert(name("updated_at"), time),
                    ),
                )
            } else if source.kind@ == "field"@ {
                let position = max_position + unit_position;
                if !fits_i32(unit_position as int) || !fits_i32(position) {
                    Err(MigrationError::Crypto)
                } else {
                    Ok(
                        insert_view(
                            Table::Field,
                            target,
                            Map::empty().insert(name("id"), id_value(target)).insert(
                                name("organization_id"),
                                id_value(ctx.organization),
                            ).insert(name("label"), string_value(label)).insert(
                                name("field_type"),
                                opt_text(source.field_type),
                            ).insert(name("position"), position_value(position)).insert(
                                name("archived_at"),
                                ValueView::Null,
                            ).insert(name("created_by_user_id"), id_value(ctx.actor)).insert(
                                name("source"),
                                ValueView::Text(name("fub")),
                            ).insert(name("external_key"), opt_text(source.machine_name)).insert(
                                name("created_at"),
                                time,
                            ).insert(name("updated_at"), time),
                        ),
                    )
                }
            } else if source.kind@ == "option"@ {
                match (source.parent, source.element) {
                    (Some(parent), Some(element)) => {
                        let position = max_position + element;
                        if !fits_i32(element as int) || !fits_i32(position) {
                            Err(MigrationError::Crypto)
                        } else {
                            Ok(
                                insert_view(
                                    Table::Option,
                                    target,
                                    Map::empty().insert(name("id"), id_value(target)).insert(
                                        name("organization_id"),
                                        id_value(ctx.organization),
                                    ).insert(name("field_id"), id_value(parent)).insert(
                                        name("label"),
                                        string_value(label),
                                    ).insert(name("position"), position_value(position)).insert(
                                        name("archived_at"),
                                        ValueView::Null,
                                    ).insert(name("created_at"), time).insert(name("updated_at"), time),
                                ),
                            )
                        }
                    },
                    _ => Err(MigrationError::Crypto),
                }
            } else {
                Err(MigrationError::Crypto)
            },
        },
    }
}

fn opt_text_val(s: &Option<String>) -> (v: Value)
    ensures
        v@ == opt_text(*s),
{
    match s {
        Some(t) => string_val(t),
        None => Value::Null,
    }
}

fn is_kind(s: &String, word: &str) -> (same: bool)
    ensures
        same == (s@ == word@),
{
    *s == word.to_owned()
}

pub fn catalog_draft(
    ctx: &DraftContext,
    target: u128,
    source: &CatalogSource,
    unit_position: i64,
    max_position: i32,
) -> (r: Result<Draft, MigrationError>)
    ensures
        match r {
            Ok(d) => catalog_result(*ctx, target, *source, unit_position, max_position) == Ok::<
                DraftView,
                MigrationError,
            >(draft_view(d)),
            Err(e) => catalog_result(*ctx, target, *source, unit_position, max_position) == Err::<
                DraftView,
                MigrationError,
            >(e),
        },
{
    let label = match &source.label {
        Some(l) => l,
        None => return Err(MigrationError::Crypto),
    };
    let time = match time_val(Some(ctx.timestamp)) {
        Some(t) => t,
        None => return Err(MigrationError::Crypto),
    };
    let mut row: Vec<(Vec<u8>, Value)> = Vec::new();
    assert(object_map(row@) =~= Map::<Seq<u8>, ValueView>::empty());
    let table = if is_kind(&source.kind, "tag") {
        put(&mut row, "id".as_bytes(), id_val(target));
        put(&mut row, "organization_id".as_bytes(), id_val(ctx.organization));
        put(&mut row, "name".as_bytes(), string_val(label));
        put(&mut row, "created_by_user_id".as_bytes(), id_val(ctx.actor));
        put(&mut row, "created_at".as_bytes(), copy_value(&time));
        put(&mut row, "updated_at".as_bytes(), time);
        Table::Tag
    } else if is_kind(&source.kind, "field") {
        if unit_position < i32::MIN as i64 || unit_position > i32::MAX as i64 {
            return Err(MigrationError::Crypto);
        }
        let position = match max_position.checked_add(unit_position as i32) {
            Some(p) => p,
            None => return Err(MigrationError::Crypto),
        };
        put(&mut row, "id".as_bytes(), id_val(target));
        put(&mut row, "organization_id".as_bytes(), id_val(ctx.organization));
        put(&mut row, "label".as_bytes(), string_val(label));
        put(&mut row, "field_type".as_bytes(), opt_text_val(&source.field_type));
        put(&mut row, "position".as_bytes(), Value::Number(i32_text(position)));
        put(&mut row, "archived_at".as_bytes(), Value::Null);
        put(&mut row, "created_by_user_id".as_bytes(), id_val(ctx.actor));
        put(&mut row, "source".as_bytes(), literal("fub"));
        put(&mut row, "external_key".as_bytes(), opt_text_val(&source.machine_name));
        put(&mut row, "created_at".as_bytes(), copy_value(&time));
        put(&mut row, "updated_at".as_bytes(), time);
        Table::Field
    } else if is_kind(&source.kind, "option") {
        let (parent, element) = match (source.parent, source.element) {
            (Some(p), Some(e)) => (p, e),
            _ => return Err(MigrationError::Crypto),
        };
        if element > i32::MAX as u32 {
            return Err(MigrationError::Crypto);
        }
        let position = match max_position.checked_add(element as i32) {
            Some(p) => p,
            None => return Err(MigrationError::Crypto),
        };
        put(&mut row, "id".as_bytes(), id_val(target));
        put(&mut row, "organization_id".as_bytes(), id_val(ctx.organization));
        put(&mut row, "field_id".as_bytes(), id_val(parent));
        put(&mut row, "label".as_bytes(), string_val(label));
        put(&mut row, "position".as_bytes(), Value::Number(i32_text(position)));
        put(&mut row, "archived_at".as_bytes(), Value::Null);
        put(&mut row, "created_at".as_bytes(), copy_value(&time));
        put(&mut row, "updated_at".as_bytes(), time);
        Table::Option
    } else {
        return Err(MigrationError::Crypto);
    };
    Ok(Draft { table, target, expected_revision: None, before: None, after: Some(Doc::Object(row)) })
}

} // verus!
