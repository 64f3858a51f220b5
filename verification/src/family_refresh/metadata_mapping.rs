//! Converting a retained Person through the plan's immutable catalog outcomes
//! into a proposal source: its tag list, one intent per field, and the live
//! catalog those intents may name. Missing and null values keep their distinct
//! gap meanings; no source null is a clear. The catalog units a Person needs
//! are looked up by the caller and handed in with what the lookups found.
use super::metadata_delta::{
    alias_of, ascending, find_key, has_key, key_index, lemma_key_index, sort_ids, unique_keys, Alias,
    Candidate, Catalog, CustomFieldValue, Field, FieldIntent, FieldType, Source, Tags,
};
use super::metadata_delta::ValueView as FieldValueView;
use super::model::Hold;
use crate::error::MigrationError;
use vstd::prelude::*;

verus! {

// ---------------------------------------------------------------------------
// Outside calls.

/// Names the common-era day number (0001-01-01 is day 1) chrono reads from
/// `YYYY-MM-DD` text, if it reads a date.
pub uninterp spec fn ymd_day(text: Seq<char>) -> Option<i32>;

/// Calls `chrono::NaiveDate::parse_from_str(text, "%Y-%m-%d")` and takes the
/// date's `num_days_from_ce`. The contract only names the result.
#[verifier::external_body]
fn parse_ymd(text: &str) -> (day: Option<i32>)
    ensures
        day == ymd_day(text@),
{
    let date = chrono::NaiveDate::parse_from_str(text, "%Y-%m-%d").ok()?;
    Some(chrono::Datelike::num_days_from_ce(&date))
}

/// Names the JSON text serde_json writes for the pair `[field, option]`, if
/// it writes one.
pub uninterp spec fn pair_json(field: Seq<char>, option: Seq<char>) -> Option<Seq<u8>>;

/// Calls `serde_json::to_vec` on the pair `(field, option)`. The contract
/// only names the result.
#[verifier::external_body]
pub(crate) fn write_pair_json(field: &str, option: &str) -> (bytes: Option<Vec<u8>>)
    ensures
        match bytes {
            Some(b) => pair_json(field@, option@) == Some(b@),
            None => pair_json(field@, option@) is None,
        },
{
    serde_json::to_vec(&(field, option)).ok()
}

/// The lookup text of a choice option: the field's source id and the raw
/// option value, as a JSON pair. The caller keys the option's catalog unit by
/// its digest.
pub fn option_lookup_text(field_source_id: &String, raw: &String) -> (r: Result<Vec<u8>, MigrationError>)
    ensures
        match r {
            Ok(b) => pair_json(field_source_id@, raw@) == Some(b@),
            Err(e) => pair_json(field_source_id@, raw@) is None && e == MigrationError::Crypto,
        },
{
    match write_pair_json(field_source_id.as_str(), raw.as_str()) {
        Some(b) => Ok(b),
        None => Err(MigrationError::Crypto),
    }
}

// ---------------------------------------------------------------------------
// Inputs.

/// A catalog unit of this plan: its manifest id and the destination it targets.
#[derive(Debug, Clone, Copy, PartialEq, Eq, Structural)]
pub struct CatalogUnit {
    pub unit: u128,
    pub target: u128,
}

/// An option's catalog unit, with the field destination it belongs to.
#[derive(Debug, Clone, Copy, PartialEq, Eq, Structural)]
pub struct OptionUnit {
    pub unit: u128,
    pub target: u128,
    pub field: Option<u128>,
}

/// One tag of the retained Person, with the keyed digest of its raw spelling.
#[derive(Debug, Clone)]
pub struct TagRow {
    /// The parser found nothing wrong with the tag.
    pub clean: bool,
    pub raw: Option<String>,
    pub label: Option<String>,
    pub alias_key: Vec<u8>,
}

/// A field value as the source extraction reads it.
#[derive(Debug, Clone)]
pub enum NativeValue {
    Text(String),
    Number(String),
    Date(String),
    Choice(String),
}

/// The frozen field definition of a catalog unit.
#[derive(Debug, Clone)]
pub struct Definition {
    pub field_type: Option<String>,
    pub source_id: String,
}

/// What was looked up for one field of the Person.
#[derive(Debug, Clone)]
pub struct FieldUnit {
    pub unit: CatalogUnit,
    pub definition: Option<Definition>,
    /// `not_supplied`, `source_null`, `eligible` or another disposition.
    pub disposition: String,
    pub value: Option<NativeValue>,
    /// The value passes the native custom-field value rules.
    pub native_valid: bool,
    /// A number in its storage form (`numeric(19,4)` text), for a number value.
    pub number: Option<String>,
    /// The option's catalog unit lookup, for a choice value.
    pub option: Option<Result<OptionUnit, Hold>>,
}

/// The Person as retained and the lookups made for it.
#[derive(Debug, Clone)]
pub struct PersonRecord {
    /// The parser found nothing wrong with the record.
    pub clean: bool,
    /// `not_supplied`, `source_null`, `empty`, `present` or another state.
    pub tags_state: String,
    pub tags: Vec<TagRow>,
    /// The tag-group catalog unit found for each distinct tag label.
    pub tag_units: Vec<(String, Result<CatalogUnit, Hold>)>,
    /// How many field definitions the Person's supplied property names reach,
    /// and how many fields the plan selected (each read up to 51).
    pub supplied_fields: usize,
    pub selected_fields: usize,
    /// One entry per field to convert, in the order of their source keys.
    pub fields: Vec<Result<FieldUnit, Hold>>,
}

// ---------------------------------------------------------------------------
// Specification.

pub enum IntentView {
    Missing,
    UnknownNull,
    QualifiedClear,
    Value(FieldValueView, bool),
    Held(Hold),
}

pub open spec fn intent_view(i: FieldIntent) -> IntentView {
    match i {
        FieldIntent::Missing => IntentView::Missing,
        FieldIntent::UnknownNull => IntentView::UnknownNull,
        FieldIntent::QualifiedClear => IntentView::QualifiedClear,
        FieldIntent::SetValue(c) => IntentView::Value(c.value@, c.native_valid),
        FieldIntent::Held(h) => IntentView::Held(h),
    }
}

pub open spec fn intents_view(s: Seq<(u128, FieldIntent)>) -> Seq<(u128, IntentView)> {
    Seq::new(s.len(), |i: int| (s[i].0, intent_view(s[i].1)))
}

pub enum TagsView {
    Missing,
    Null,
    Complete(Seq<(Alias, u128)>),
    Held(Hold),
}

pub open spec fn tags_view(t: Tags) -> TagsView {
    match t {
        Tags::Missing => TagsView::Missing,
        Tags::Null => TagsView::Null,
        Tags::Complete(v) => TagsView::Complete(v@),
        Tags::Held(h) => TagsView::Held(h),
    }
}

/// Live catalog fields: each field's kind and live options.
pub open spec fn catalog_fields(s: Seq<(u128, Field)>) -> Map<u128, (FieldType, Set<u128>)> {
    Map::new(
        |k: u128| has_key(s, k),
        |k: u128| (s[key_index(s, k)].1.kind, s[key_index(s, k)].1.live_options@.to_set()),
    )
}

pub struct ConversionView {
    pub tags: TagsView,
    pub fields: Seq<(u128, IntentView)>,
    pub live_tags: Set<u128>,
    pub live_fields: Map<u128, (FieldType, Set<u128>)>,
    pub tag_limit: nat,
    pub units: Set<u128>,
}

/// The tag-group lookup for `label`: the first entry for it.
pub open spec fn lookup_label(table: Seq<(String, Result<CatalogUnit, Hold>)>, label: Seq<char>) -> Option<
    Result<CatalogUnit, Hold>,
>
    decreases table.len(),
{
    if table.len() == 0 {
        None
    } else if table[0].0@ == label {
        Some(table[0].1)
    } else {
        lookup_label(table.drop_first(), label)
    }
}

pub struct TagState {
    pub values: Seq<(Alias, u128)>,
    pub units: Set<u128>,
    pub live: Set<u128>,
}

pub open spec fn tag_step(
    s: TagState,
    row: TagRow,
    table: Seq<(String, Result<CatalogUnit, Hold>)>,
) -> Result<Result<TagState, Hold>, MigrationError> {
    if !row.clean {
        Ok(Err(Hold::UnsupportedSource))
    } else {
        match (row.raw, row.label) {
            (Some(_), Some(label)) => match lookup_label(table, label@) {
                None => Err(MigrationError::Crypto),
                Some(Err(h)) => Ok(Err(h)),
                Some(Ok(u)) => if row.alias_key@.len() != 32 {
                    Err(MigrationError::Crypto)
                } else {
                    Ok(
                        Ok(
                            TagState {
                                values: s.values.push((alias_of(row.alias_key@), u.target)),
                                units: s.units.insert(u.unit),
                                live: s.live.insert(u.target),
                            },
                        ),
                    )
                },
            },
            _ => Err(MigrationError::Crypto),
        }
    }
}

pub open spec fn tags_upto(
    rows: Seq<TagRow>,
    table: Seq<(String, Result<CatalogUnit, Hold>)>,
    n: nat,
) -> Result<Result<TagState, Hold>, MigrationError>
    decreases n,
{
    if n == 0 {
        Ok(Ok(TagState { values: Seq::empty(), units: Set::empty(), live: Set::empty() }))
    } else {
        match tags_upto(rows, table, (n - 1) as nat) {
            Ok(Ok(s)) => tag_step(s, rows[n - 1], table),
            other => other,
        }
    }
}

/// The Person's tag list and the tag units and destinations it relies on.
pub open spec fn tags_result(p: PersonRecord) -> Result<Result<(TagsView, TagState), Hold>, MigrationError> {
    let none = TagState { values: Seq::empty(), units: Set::empty(), live: Set::empty() };
    if p.tags_state@ == "not_supplied"@ {
        Ok(Ok((TagsView::Missing, none)))
    } else if p.tags_state@ == "source_null"@ {
        Ok(Ok((TagsView::Null, none)))
    } else if p.tags_state@ == "empty"@ || p.tags_state@ == "present"@ {
        match tags_upto(p.tags@, p.tag_units@, p.tags@.len()) {
            Err(e) => Err(e),
            Ok(Err(h)) => Ok(Err(h)),
            Ok(Ok(s)) => Ok(Ok((TagsView::Complete(s.values), s))),
        }
    } else {
        Ok(Err(Hold::UnsupportedSource))
    }
}

pub open spec fn field_kind(name: Seq<char>) -> Option<FieldType> {
    if name == "text"@ {
        Some(FieldType::Text)
    } else if name == "number"@ {
        Some(FieldType::Number)
    } else if name == "date"@ {
        Some(FieldType::Date)
    } else if name == "choice"@ {
        Some(FieldType::Choice)
    } else {
        None
    }
}

/// A field's intent, and the option unit a choice value relies on.
pub open spec fn intent_of(u: FieldUnit, def: Definition) -> Result<
    Result<(IntentView, Option<OptionUnit>), Hold>,
    MigrationError,
> {
    if u.disposition@ == "not_supplied"@ {
        Ok(Ok((IntentView::Missing, None)))
    } else if u.disposition@ == "source_null"@ {
        Ok(Ok((IntentView::UnknownNull, None)))
    } else if u.disposition@ == "eligible"@ {
        match u.value {
            None => Err(MigrationError::Crypto),
            Some(NativeValue::Text(v)) => Ok(Ok((IntentView::Value(FieldValueView::Text(v@), u.native_valid), None))),
            Some(NativeValue::Number(_)) => match u.number {
                Some(n) => Ok(Ok((IntentView::Value(FieldValueView::Number(n@), u.native_valid), None))),
                None => Err(MigrationError::Crypto),
            },
            Some(NativeValue::Date(v)) => match ymd_day(v@) {
                Some(d) => Ok(Ok((IntentView::Value(FieldValueView::Date(d), u.native_valid), None))),
                None => Err(MigrationError::Crypto),
            },
            Some(NativeValue::Choice(raw)) => match pair_json(def.source_id@, raw@) {
                None => Err(MigrationError::Crypto),
                Some(_) => match u.option {
                    None => Err(MigrationError::Crypto),
                    Some(Err(h)) => Ok(Err(h)),
                    Some(Ok(o)) => if o.field != Some(u.unit.target) {
                        Err(MigrationError::Crypto)
                    } else {
                        Ok(Ok((IntentView::Value(FieldValueView::Choice(o.target), u.native_valid), Some(o))))
                    },
                },
            },
        }
    } else {
        Ok(Err(Hold::UnsupportedSource))
    }
}

pub struct FieldState {
    pub fields: Seq<(u128, IntentView)>,
    pub live: Map<u128, (FieldType, Set<u128>)>,
    pub units: Set<u128>,
}

/// A choice option joins its field's live options (a new field entry is a
/// choice field).
pub open spec fn with_option(m: Map<u128, (FieldType, Set<u128>)>, field: u128, option: u128) -> Map<
    u128,
    (FieldType, Set<u128>),
> {
    if m.contains_key(field) {
        m.insert(field, (m[field].0, m[field].1.insert(option)))
    } else {
        m.insert(field, (FieldType::Choice, set![option]))
    }
}

pub open spec fn field_step(s: FieldState, f: Result<FieldUnit, Hold>) -> Result<Result<FieldState, Hold>, MigrationError> {
    match f {
        Err(h) => Ok(Err(h)),
        Ok(u) => match u.definition {
            None => Err(MigrationError::Crypto),
            Some(def) => match intent_of(u, def) {
                Err(e) => Err(e),
                Ok(Err(h)) => Ok(Err(h)),
                Ok(Ok((intent, option))) => match def.field_type {
                    None => Err(MigrationError::Crypto),
                    Some(t) => match field_kind(t@) {
                        None => Err(MigrationError::Crypto),
                        Some(kind) => {
                            let (live1, units1) = match option {
                                Some(o) => (with_option(s.live, u.unit.target, o.target), s.units.insert(o.unit)),
                                None => (s.live, s.units),
                            };
                            let live2 = if live1.contains_key(u.unit.target) {
                                live1
                            } else {
                                live1.insert(u.unit.target, (kind, Set::empty()))
                            };
                            Ok(
                                Ok(
                                    FieldState {
                                        fields: s.fields.push((u.unit.target, intent)),
                                        live: live2,
                                        units: units1.insert(u.unit.unit),
                                    },
                                ),
                            )
                        },
                    },
                },
            },
        },
    }
}

pub open spec fn fields_upto(start: FieldState, fs: Seq<Result<FieldUnit, Hold>>, n: nat) -> Result<
    Result<FieldState, Hold>,
    MigrationError,
>
    decreases n,
{
    if n == 0 {
        Ok(Ok(start))
    } else {
        match fields_upto(start, fs, (n - 1) as nat) {
            Ok(Ok(s)) => field_step(s, fs[n - 1]),
            other => other,
        }
    }
}

pub open spec fn observed(fields: Seq<(u128, IntentView)>, f: u128) -> bool {
    exists|i: int| 0 <= i < fields.len() && fields[i].0 == f
}

/// Owned fields the source did not mention, in their listed order.
pub open spec fn unobserved(owned: Seq<u128>, fields: Seq<(u128, IntentView)>) -> Seq<u128>
    decreases owned.len(),
{
    if owned.len() == 0 {
        Seq::empty()
    } else {
        let r = unobserved(owned.drop_last(), fields);
        if observed(fields, owned.last()) {
            r
        } else {
            r.push(owned.last())
        }
    }
}

pub open spec fn missing_intents(ids: Seq<u128>) -> Seq<(u128, IntentView)> {
    Seq::new(ids.len(), |i: int| (ids[i], IntentView::Missing))
}

/// The conversion of a retained Person: a hold, a refusal of inconsistent
/// evidence, or its proposal source and live catalog. `native_tags` are the
/// organization's tags (read up to 201); owned fields the source leaves out
/// are kept as missing, in ascending id order.
pub open spec fn conversion(
    p: PersonRecord,
    native_tags: Seq<u128>,
    owned_fields: Seq<u128>,
    tag_limit: nat,
) -> Result<Result<ConversionView, Hold>, MigrationError> {
    if !p.clean {
        Ok(Err(Hold::UnsupportedSource))
    } else if native_tags.len() > 200 {
        Ok(Err(Hold::TargetUnavailable))
    } else {
        match tags_result(p) {
            Err(e) => Err(e),
            Ok(Err(h)) => Ok(Err(h)),
            Ok(Ok((tags, ts))) => if p.supplied_fields > 50 || p.selected_fields > 50 {
                Ok(Err(Hold::UnitTooLarge))
            } else {
                let start = FieldState { fields: Seq::empty(), live: Map::empty(), units: ts.units };
                match fields_upto(start, p.fields@, p.fields@.len()) {
                    Err(e) => Err(e),
                    Ok(Err(h)) => Ok(Err(h)),
                    Ok(Ok(fs)) => Ok(
                        Ok(
                            ConversionView {
                                tags,
                                fields: fs.fields + missing_intents(ascending(unobserved(owned_fields, fs.fields))),
                                live_tags: native_tags.to_set().union(ts.live),
                                live_fields: fs.live,
                                tag_limit,
                                units: fs.units,
                            },
                        ),
                    ),
                }
            },
        }
    }
}

/// A converted Person: its proposal source, the catalog it is checked
/// against and the catalog units it relies on.
pub struct Converted {
    pub source: Source,
    pub catalog: Catalog,
    pub units: Vec<u128>,
}

pub open spec fn converted_view(c: Converted) -> ConversionView {
    ConversionView {
        tags: tags_view(c.source.tags),
        fields: intents_view(c.source.fields@),
        live_tags: c.catalog.live_tags@.to_set(),
        live_fields: catalog_fields(c.catalog.live_fields@),
        tag_limit: c.catalog.tag_limit as nat,
        units: c.units@.to_set(),
    }
}

pub open spec fn result_view(r: Result<Result<Converted, Hold>, MigrationError>) -> Result<
    Result<ConversionView, Hold>,
    MigrationError,
> {
    match r {
        Ok(Ok(c)) => Ok(Ok(converted_view(c))),
        Ok(Err(h)) => Ok(Err(h)),
        Err(e) => Err(e),
    }
}

// ---------------------------------------------------------------------------
// Conversion.

proof fn lemma_tags_stop(rows: Seq<TagRow>, table: Seq<(String, Result<CatalogUnit, Hold>)>, k: nat, n: nat)
    requires
        k <= n,
        !(tags_upto(rows, table, k) matches Ok(Ok(_))),
    ensures
        tags_upto(rows, table, n) == tags_upto(rows, table, k),
    decreases n - k,
{
    if n > k {
        lemma_tags_stop(rows, table, k, (n - 1) as nat);
    }
}

proof fn lemma_fields_stop(start: FieldState, fs: Seq<Result<FieldUnit, Hold>>, k: nat, n: nat)
    requires
        k <= n,
        !(fields_upto(start, fs, k) matches Ok(Ok(_))),
    ensures
        fields_upto(start, fs, n) == fields_upto(start, fs, k),
    decreases n - k,
{
    if n > k {
        lemma_fields_stop(start, fs, k, (n - 1) as nat);
    }
}

fn lookup_label_of(table: &Vec<(String, Result<CatalogUnit, Hold>)>, label: &String) -> (r: Option<Result<CatalogUnit, Hold>>)
    ensures
        r == lookup_label(table@, label@),
{
    let mut i: usize = 0;
    assert(table@.skip(0) =~= table@);
    while i < table.len()
        invariant
            i <= table@.len(),
            lookup_label(table@, label@) == lookup_label(table@.skip(i as int), label@),
        decreases table.len() - i,
    {
        assert(table@.skip(i as int)[0] == table@[i as int]);
        assert(table@.skip(i as int).drop_first() =~= table@.skip(i as int + 1));
        if table[i].0 == *label {
            return Some(table[i].1);
        }
        i = i + 1;
    }
    assert(table@.skip(i as int).len() == 0);
    None
}

fn is_word(s: &String, w: &str) -> (same: bool)
    ensures
        same == (s@ == w@),
{
    *s == w.to_owned()
}

pub open spec fn tag_state_of(t: Tags, units: Seq<u128>, live: Seq<u128>) -> TagState {
    TagState {
        values: match t {
            Tags::Complete(v) => v@,
            _ => Seq::empty(),
        },
        units: units.to_set(),
        live: live.to_set(),
    }
}

fn convert_tags(p: &PersonRecord) -> (r: Result<Result<(Tags, Vec<u128>, Vec<u128>), Hold>, MigrationError>)
    ensures
        match r {
            Ok(Ok((t, u, l))) => tags_result(*p) == Ok::<Result<(TagsView, TagState), Hold>, MigrationError>(
                Ok((tags_view(t), tag_state_of(t, u@, l@))),
            ),
            Ok(Err(h)) => tags_result(*p) == Ok::<Result<(TagsView, TagState), Hold>, MigrationError>(Err(h)),
            Err(e) => tags_result(*p) == Err::<Result<(TagsView, TagState), Hold>, MigrationError>(e),
        },
{
    if is_word(&p.tags_state, "not_supplied") {
        let t = Tags::Missing;
        let u: Vec<u128> = Vec::new();
        let l: Vec<u128> = Vec::new();
        assert(u@.to_set() =~= Set::<u128>::empty());
        return Ok(Ok((t, u, l)));
    }
    if is_word(&p.tags_state, "source_null") {
        let u: Vec<u128> = Vec::new();
        let l: Vec<u128> = Vec::new();
        assert(u@.to_set() =~= Set::<u128>::empty());
        return Ok(Ok((Tags::Null, u, l)));
    }
    if !(is_word(&p.tags_state, "empty") || is_word(&p.tags_state, "present")) {
        return Ok(Err(Hold::UnsupportedSource));
    }
    let mut values: Vec<(Alias, u128)> = Vec::new();
    let mut units: Vec<u128> = Vec::new();
    let mut live: Vec<u128> = Vec::new();
    let mut i: usize = 0;
    assert(units@.to_set() =~= Set::<u128>::empty());
    assert(live@.to_set() =~= Set::<u128>::empty());
    while i < p.tags.len()
        invariant
            i <= p.tags@.len(),
            p.tags_state@ != "not_supplied"@,
            p.tags_state@ != "source_null"@,
            p.tags_state@ == "empty"@ || p.tags_state@ == "present"@,
            tags_upto(p.tags@, p.tag_units@, i as nat) == Ok::<Result<TagState, Hold>, MigrationError>(
                Ok(TagState { values: values@, units: units@.to_set(), live: live@.to_set() }),
            ),
        decreases p.tags.len() - i,
    {
        let row = &p.tags[i];
        if !row.clean {
            proof {
                lemma_tags_stop(p.tags@, p.tag_units@, (i + 1) as nat, p.tags@.len());
            }
            return Ok(Err(Hold::UnsupportedSource));
        }
        let label = match (&row.raw, &row.label) {
            (Some(_), Some(l)) => l,
            _ => {
                proof {
                    lemma_tags_stop(p.tags@, p.tag_units@, (i + 1) as nat, p.tags@.len());
                }
                return Err(MigrationError::Crypto);
            },
        };
        let u = match lookup_label_of(&p.tag_units, label) {
            None => {
                proof {
                    lemma_tags_stop(p.tags@, p.tag_units@, (i + 1) as nat, p.tags@.len());
                }
                return Err(MigrationError::Crypto);
            },
            Some(Err(h)) => {
                proof {
                    lemma_tags_stop(p.tags@, p.tag_units@, (i + 1) as nat, p.tags@.len());
                }
                return Ok(Err(h));
            },
            Some(Ok(u)) => u,
        };
        let alias = match Alias::from_bytes(row.alias_key.as_slice()) {
            Some(a) => a,
            None => {
                proof {
                    lemma_tags_stop(p.tags@, p.tag_units@, (i + 1) as nat, p.tags@.len());
                }
                return Err(MigrationError::Crypto);
            },
        };
        let ghost (u0, l0) = (units@, live@);
        values.push((alias, u.target));
        units.push(u.unit);
        live.push(u.target);
        proof {
            u0.lemma_push_to_set_commute(u.unit);
            l0.lemma_push_to_set_commute(u.target);
        }
        i = i + 1;
    }
    let t = Tags::Complete(values);
    Ok(Ok((t, units, live)))
}

proof fn lemma_fields_push(s: Seq<(u128, Field)>, k: u128, f: Field)
    requires
        unique_keys(s),
        !has_key(s, k),
    ensures
        unique_keys(s.push((k, f))),
        catalog_fields(s.push((k, f))) == catalog_fields(s).insert(k, (f.kind, f.live_options@.to_set())),
{
    let t = s.push((k, f));
    assert forall|i: int, j: int| 0 <= i < t.len() && 0 <= j < t.len() && i != j implies t[i].0 != t[j].0 by {
        if i == s.len() {
            assert(s[j].0 == t[j].0);
        } else if j == s.len() {
            assert(s[i].0 == t[i].0);
        }
    }
    lemma_key_index(t, s.len() as int);
    assert forall|x: u128| #![trigger has_key(t, x)] has_key(t, x) == (has_key(s, x) || x == k) by {
        if has_key(t, x) {
            let i = choose|i: int| 0 <= i < t.len() && t[i].0 == x;
            if i < s.len() {
                assert(s[i].0 == x);
            }
        }
        if has_key(s, x) {
            let i = choose|i: int| 0 <= i < s.len() && s[i].0 == x;
            assert(t[i].0 == x);
        }
    }
    assert forall|x: u128| has_key(s, x) implies key_index(t, x) == key_index(s, x) by {
        let i = key_index(s, x);
        assert(0 <= i < s.len() && s[i].0 == x);
        lemma_key_index(s, i);
        assert(t[i] == s[i]);
        lemma_key_index(t, i);
    }
    assert(catalog_fields(t) =~= catalog_fields(s).insert(k, (f.kind, f.live_options@.to_set())));
}

proof fn lemma_fields_set(s: Seq<(u128, Field)>, i: int, f: Field)
    requires
        unique_keys(s),
        0 <= i < s.len(),
    ensures
        unique_keys(s.update(i, (s[i].0, f))),
        catalog_fields(s.update(i, (s[i].0, f))) == catalog_fields(s).insert(
            s[i].0,
            (f.kind, f.live_options@.to_set()),
        ),
{
    let k = s[i].0;
    let t = s.update(i, (k, f));
    assert forall|a: int, b: int| 0 <= a < t.len() && 0 <= b < t.len() && a != b implies t[a].0 != t[b].0 by {
        assert(t[a].0 == s[a].0 && t[b].0 == s[b].0);
    }
    lemma_key_index(t, i);
    assert forall|x: u128| #![trigger has_key(t, x)] has_key(t, x) == has_key(s, x) by {
        if has_key(t, x) {
            let j = choose|j: int| 0 <= j < t.len() && t[j].0 == x;
            assert(s[j].0 == x);
        }
        if has_key(s, x) {
            let j = choose|j: int| 0 <= j < s.len() && s[j].0 == x;
            assert(t[j].0 == x);
        }
    }
    assert forall|x: u128| has_key(s, x) && x != k implies key_index(t, x) == key_index(s, x) && t[key_index(
        t,
        x,
    )] == s[key_index(s, x)] by {
        let j = key_index(s, x);
        lemma_key_index(s, j);
        assert(j != i);
        assert(t[j] == s[j]);
        lemma_key_index(t, j);
    }
    assert(catalog_fields(t) =~= catalog_fields(s).insert(k, (f.kind, f.live_options@.to_set())));
}

fn kind_of(name: &String) -> (k: Option<FieldType>)
    ensures
        k == field_kind(name@),
{
    if is_word(name, "text") {
        Some(FieldType::Text)
    } else if is_word(name, "number") {
        Some(FieldType::Number)
    } else if is_word(name, "date") {
        Some(FieldType::Date)
    } else if is_word(name, "choice") {
        Some(FieldType::Choice)
    } else {
        None
    }
}

pub open spec fn intent_result_view(r: Result<Result<(FieldIntent, Option<OptionUnit>), Hold>, MigrationError>) -> Result<
    Result<(IntentView, Option<OptionUnit>), Hold>,
    MigrationError,
> {
    match r {
        Ok(Ok((i, o))) => Ok(Ok((intent_view(i), o))),
        Ok(Err(h)) => Ok(Err(h)),
        Err(e) => Err(e),
    }
}

fn intent_of_unit(u: &FieldUnit, def: &Definition) -> (r: Result<Result<(FieldIntent, Option<OptionUnit>), Hold>, MigrationError>)
    ensures
        intent_result_view(r) == intent_of(*u, *def),
{
    let set = |v: CustomFieldValue| -> (i: FieldIntent)
        ensures
            i == FieldIntent::SetValue(Candidate { value: v, native_valid: u.native_valid }),
    { FieldIntent::SetValue(Candidate { value: v, native_valid: u.native_valid }) };
    if is_word(&u.disposition, "not_supplied") {
        return Ok(Ok((FieldIntent::Missing, None)));
    }
    if is_word(&u.disposition, "source_null") {
        return Ok(Ok((FieldIntent::UnknownNull, None)));
    }
    if !is_word(&u.disposition, "eligible") {
        return Ok(Err(Hold::UnsupportedSource));
    }
    match &u.value {
        None => Err(MigrationError::Crypto),
        Some(NativeValue::Text(v)) => Ok(Ok((set(CustomFieldValue::Text(v.clone())), None))),
        Some(NativeValue::Number(_)) => match &u.number {
            Some(n) => Ok(Ok((set(CustomFieldValue::Number(n.clone())), None))),
            None => Err(MigrationError::Crypto),
        },
        Some(NativeValue::Date(v)) => match parse_ymd(v.as_str()) {
            Some(d) => Ok(Ok((set(CustomFieldValue::Date(d)), None))),
            None => Err(MigrationError::Crypto),
        },
        Some(NativeValue::Choice(raw)) => {
            if write_pair_json(def.source_id.as_str(), raw.as_str()).is_none() {
                return Err(MigrationError::Crypto);
            }
            match u.option {
                None => Err(MigrationError::Crypto),
                Some(Err(h)) => Ok(Err(h)),
                Some(Ok(o)) => {
                    let same = match o.field {
                        Some(f) => f == u.unit.target,
                        None => false,
                    };
                    if !same {
                        Err(MigrationError::Crypto)
                    } else {
                        Ok(Ok((set(CustomFieldValue::Choice(o.target)), Some(o))))
                    }
                },
            }
        },
    }
}

/// Adds `option` to the live options of `field`, creating a choice field.
fn add_option(live: &mut Vec<(u128, Field)>, field: u128, option: u128)
    requires
        unique_keys(old(live)@),
    ensures
        unique_keys(final(live)@),
        catalog_fields(final(live)@) == with_option(catalog_fields(old(live)@), field, option),
{
    match find_key(live, field) {
        Some(i) => {
            let mut options = copy_u128s(&live[i].1.live_options);
            let ghost before = options@;
            options.push(option);
            proof {
                before.lemma_push_to_set_commute(option);
                lemma_key_index(live@, i as int);
            }
            let kind = live[i].1.kind;
            let nf = Field { kind, live_options: options };
            proof {
                lemma_fields_set(live@, i as int, nf);
            }
            live.set(i, (field, nf));
        },
        None => {
            let mut options: Vec<u128> = Vec::new();
            options.push(option);
            assert forall|y: u128| options@.to_set().contains(y) <==> y == option by {
                if y == option {
                    assert(options@[0] == option);
                }
            }
            assert(options@.to_set() =~= set![option]);
            let nf = Field { kind: FieldType::Choice, live_options: options };
            proof {
                lemma_fields_push(live@, field, nf);
            }
            live.push((field, nf));
        },
    }
}

fn copy_u128s(v: &Vec<u128>) -> (c: Vec<u128>)
    ensures
        c@ == v@,
{
    let mut c: Vec<u128> = Vec::new();
    let mut i: usize = 0;
    while i < v.len()
        invariant
            i <= v@.len(),
            c@ == v@.take(i as int),
        decreases v.len() - i,
    {
        c.push(v[i]);
        i = i + 1;
        assert(c@ =~= v@.take(i as int));
    }
    assert(v@.take(i as int) =~= v@);
    c
}

pub open spec fn field_state_of(fields: Seq<(u128, FieldIntent)>, live: Seq<(u128, Field)>, units: Seq<u128>) -> FieldState {
    FieldState { fields: intents_view(fields), live: catalog_fields(live), units: units.to_set() }
}

fn observed_in(fields: &Vec<(u128, FieldIntent)>, f: u128) -> (o: bool)
    ensures
        o == observed(intents_view(fields@), f),
{
    let mut i: usize = 0;
    while i < fields.len()
        invariant
            i <= fields@.len(),
            forall|j: int| 0 <= j < i ==> fields@[j].0 != f,
        decreases fields.len() - i,
    {
        if fields[i].0 == f {
            assert(intents_view(fields@)[i as int].0 == f);
            return true;
        }
        i = i + 1;
    }
    assert forall|j: int| 0 <= j < intents_view(fields@).len() implies intents_view(fields@)[j].0 != f by {
        assert(intents_view(fields@)[j].0 == fields@[j].0);
    }
    false
}

/// Converts a retained Person: its tag list, one intent per looked-up field,
/// the live catalog those name, and a missing intent for every owned field
/// the source leaves out.
pub fn convert_person(
    p: &PersonRecord,
    native_tags: &Vec<u128>,
    owned_fields: &Vec<u128>,
    tag_limit: usize,
) -> (r: Result<Result<Converted, Hold>, MigrationError>)
    ensures
        result_view(r) == conversion(*p, native_tags@, owned_fields@, tag_limit as nat),
{
    if !p.clean {
        return Ok(Err(Hold::UnsupportedSource));
    }
    if native_tags.len() > 200 {
        return Ok(Err(Hold::TargetUnavailable));
    }
    let (tags, tag_units, tag_live) = match convert_tags(p) {
        Err(e) => return Err(e),
        Ok(Err(h)) => return Ok(Err(h)),
        Ok(Ok(t)) => t,
    };
    if p.supplied_fields > 50 || p.selected_fields > 50 {
        return Ok(Err(Hold::UnitTooLarge));
    }
    let ghost start = FieldState { fields: Seq::empty(), live: Map::empty(), units: tag_units@.to_set() };
    let mut fields: Vec<(u128, FieldIntent)> = Vec::new();
    let mut live: Vec<(u128, Field)> = Vec::new();
    let mut units = copy_u128s(&tag_units);
    assert(intents_view(fields@) =~= Seq::<(u128, IntentView)>::empty());
    assert(catalog_fields(live@) =~= Map::<u128, (FieldType, Set<u128>)>::empty());
    let mut i: usize = 0;
    while i < p.fields.len()
        invariant
            i <= p.fields@.len(),
            unique_keys(live@),
            p.clean,
            native_tags@.len() <= 200,
            !(p.supplied_fields > 50 || p.selected_fields > 50),
            tags_result(*p) == Ok::<Result<(TagsView, TagState), Hold>, MigrationError>(
                Ok((tags_view(tags), tag_state_of(tags, tag_units@, tag_live@))),
            ),
            start == (FieldState { fields: Seq::empty(), live: Map::empty(), units: tag_units@.to_set() }),
            fields_upto(start, p.fields@, i as nat) == Ok::<Result<FieldState, Hold>, MigrationError>(
                Ok(field_state_of(fields@, live@, units@)),
            ),
        decreases p.fields.len() - i,
    {
        let ghost before = field_state_of(fields@, live@, units@);
        let u = match &p.fields[i] {
            Err(h) => {
                proof {
                    lemma_fields_stop(start, p.fields@, (i + 1) as nat, p.fields@.len());
                }
                return Ok(Err(*h));
            },
            Ok(u) => u,
        };
        let def = match &u.definition {
            None => {
                proof {
                    lemma_fields_stop(start, p.fields@, (i + 1) as nat, p.fields@.len());
                }
                return Err(MigrationError::Crypto);
            },
            Some(d) => d,
        };
        let (intent, option) = match intent_of_unit(u, def) {
            Err(e) => {
                proof {
                    lemma_fields_stop(start, p.fields@, (i + 1) as nat, p.fields@.len());
                }
                return Err(e);
            },
            Ok(Err(h)) => {
                proof {
                    lemma_fields_stop(start, p.fields@, (i + 1) as nat, p.fields@.len());
                }
                return Ok(Err(h));
            },
            Ok(Ok(x)) => x,
        };
        let kind = match &def.field_type {
            None => None,
            Some(t) => kind_of(t),
        };
        let kind = match kind {
            None => {
                proof {
                    lemma_fields_stop(start, p.fields@, (i + 1) as nat, p.fields@.len());
                }
                return Err(MigrationError::Crypto);
            },
            Some(k) => k,
        };
        let target = u.unit.target;
        match option {
            Some(o) => {
                add_option(&mut live, target, o.target);
                let ghost u0 = units@;
                units.push(o.unit);
                proof {
                    u0.lemma_push_to_set_commute(o.unit);
                }
            },
            None => {},
        }
        match find_key(&live, target) {
            Some(_) => {},
            None => {
                let nf = Field { kind, live_options: Vec::new() };
                assert(nf.live_options@.to_set() =~= Set::<u128>::empty());
                proof {
                    lemma_fields_push(live@, target, nf);
                }
                live.push((target, nf));
            },
        }
        let ghost u1 = units@;
        units.push(u.unit.unit);
        proof {
            u1.lemma_push_to_set_commute(u.unit.unit);
        }
        let ghost f0 = fields@;
        fields.push((target, intent));
        assert(intents_view(fields@) =~= intents_view(f0).push((target, intent_view(intent))));
        i = i + 1;
    }
    // Owned fields the source leaves out stay as they are, as missing.
    let mut left: Vec<u128> = Vec::new();
    let mut j: usize = 0;
    let ghost seen = intents_view(fields@);
    assert(owned_fields@.take(0) =~= Seq::<u128>::empty());
    while j < owned_fields.len()
        invariant
            j <= owned_fields@.len(),
            seen == intents_view(fields@),
            left@ == unobserved(owned_fields@.take(j as int), seen),
        decreases owned_fields.len() - j,
    {
        assert(owned_fields@.take(j as int + 1).drop_last() =~= owned_fields@.take(j as int));
        assert(owned_fields@.take(j as int + 1).last() == owned_fields@[j as int]);
        if !observed_in(&fields, owned_fields[j]) {
            left.push(owned_fields[j]);
        }
        j = j + 1;
    }
    assert(owned_fields@.take(j as int) =~= owned_fields@);
    let sorted = sort_ids(&left);
    let mut k: usize = 0;
    assert(missing_intents(sorted@.take(0)) =~= Seq::<(u128, IntentView)>::empty());
    assert(seen + missing_intents(sorted@.take(0)) =~= seen);
    while k < sorted.len()
        invariant
            k <= sorted@.len(),
            intents_view(fields@) == seen + missing_intents(sorted@.take(k as int)),
        decreases sorted.len() - k,
    {
        let ghost f0 = fields@;
        fields.push((sorted[k], FieldIntent::Missing));
        k = k + 1;
        assert(intents_view(fields@) =~= intents_view(f0).push((sorted@[k - 1], IntentView::Missing)));
        assert(missing_intents(sorted@.take(k as int)) =~= missing_intents(sorted@.take(k as int - 1)).push(
            (sorted@[k - 1], IntentView::Missing),
        ));
    }
    assert(sorted@.take(k as int) =~= sorted@);
    let mut all_tags = copy_u128s(native_tags);
    let mut m: usize = 0;
    assert(all_tags@.to_set() =~= native_tags@.to_set().union(tag_live@.take(0).to_set()));
    while m < tag_live.len()
        invariant
            m <= tag_live@.len(),
            all_tags@.to_set() == native_tags@.to_set().union(tag_live@.take(m as int).to_set()),
        decreases tag_live.len() - m,
    {
        let ghost a0 = all_tags@;
        all_tags.push(tag_live[m]);
        proof {
            a0.lemma_push_to_set_commute(tag_live@[m as int]);
            assert(tag_live@.take(m as int + 1) =~= tag_live@.take(m as int).push(tag_live@[m as int]));
            tag_live@.take(m as int).lemma_push_to_set_commute(tag_live@[m as int]);
        }
        m = m + 1;
        assert(all_tags@.to_set() =~= native_tags@.to_set().union(tag_live@.take(m as int).to_set()));
    }
    assert(tag_live@.take(m as int) =~= tag_live@);
    Ok(
        Ok(
            Converted {
                source: Source { tags, fields },
                catalog: Catalog { live_tags: all_tags, live_fields: live, tag_limit },
                units,
            },
        ),
    )
}

} // verus!
