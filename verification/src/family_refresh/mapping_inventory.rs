//! Mapping elements of one authenticated source occurrence, the operator's
//! choice for each, and the check of a mapping against its stored row.
use crate::error::MigrationError;
use super::mapping_selection::Destination;
use super::model::{bytes_equal, Family};
use super::activity_delta::copy_bytes;
use super::metadata_mapping::{pair_json, write_pair_json};
use vstd::utf8::encode_utf8;
use vstd::prelude::*;

verus! {

/// Outcome of one bounded step of a resumable walk.
#[derive(Debug, Clone, Copy, PartialEq, Eq, Structural)]
pub enum Progress {
    Advanced,
    Finished,
    Capacity,
}

/// What the operator chose for one mapping element.
#[derive(Debug, Clone)]
pub enum Choice {
    Hold,
    Existing { target: u128 },
    CreateMatching { target: u128 },
    Unassigned,
    Kind { kind: String },
    Timezone { zone: String },
}

/// The stored disposition word of a choice.
pub open spec fn disposition(c: Choice) -> Seq<char> {
    match c {
        Choice::Hold => "hold"@,
        Choice::Existing { .. } => "existing"@,
        Choice::CreateMatching { .. } => "create_matching"@,
        Choice::Unassigned => "unassigned"@,
        Choice::Kind { .. } => "kind"@,
        Choice::Timezone { .. } => "timezone"@,
    }
}

/// The stored target column of a choice.
pub open spec fn choice_target(c: Choice) -> Option<u128> {
    match c {
        Choice::Existing { target } => Some(target),
        Choice::CreateMatching { target } => Some(target),
        _ => None,
    }
}

impl Choice {
    /// The disposition word and target column under which the choice is stored.
    pub fn columns(&self) -> (r: (&'static str, Option<u128>))
        ensures
            r.0@ == disposition(*self),
            r.1 == choice_target(*self),
    {
        match self {
            Choice::Hold => ("hold", None),
            Choice::Existing { target } => ("existing", Some(*target)),
            Choice::CreateMatching { target } => ("create_matching", Some(*target)),
            Choice::Unassigned => ("unassigned", None),
            Choice::Kind { .. } => ("kind", None),
            Choice::Timezone { .. } => ("timezone", None),
        }
    }
}

/// The exact source element a mapping was taken from.
#[derive(Debug, Clone, Copy, PartialEq, Eq, Structural)]
pub struct Reference {
    pub row: u128,
    pub element: u32,
}

/// One mapping element and the operator's current choice for it.
#[derive(Debug, Clone)]
pub struct Mapping {
    pub kind: String,
    pub source_key: Vec<u8>,
    pub parent_key: Option<Vec<u8>>,
    /// Full values stay in this exact source reference; the label is a summary.
    pub source: Option<Reference>,
    pub label: Option<String>,
    /// Intrinsic value validity only.
    pub qualified: bool,
    pub creation_allowed: bool,
    pub choice: Choice,
    pub destination: Option<Destination>,
}

/// The columns of a stored mapping row, as read back.
#[derive(Debug, Clone)]
pub struct StoredMapping {
    pub source_row_id: Option<u128>,
    pub source_element: Option<i32>,
    pub kind: String,
    pub source_key_hmac: Vec<u8>,
    pub parent_key: Option<Vec<u8>>,
    pub qualified: bool,
    pub disposition: String,
    pub target_id: Option<u128>,
}

/// A source element index as the signed column stores it, if it fits.
pub open spec fn element_column(element: u32) -> Option<i32> {
    if element <= i32::MAX {
        Some(element as i32)
    } else {
        None
    }
}

pub open spec fn opt_bytes(v: Option<Vec<u8>>) -> Option<Seq<u8>> {
    match v {
        Some(b) => Some(b@),
        None => None,
    }
}

/// The row names the mapping's source element; only a timezone mapping has none.
pub open spec fn source_bound(m: Mapping, row: StoredMapping) -> bool {
    match m.source {
        Some(r) => Some(r.row) == row.source_row_id && element_column(r.element)
            == row.source_element,
        None => m.kind@ == "timezone"@ && row.source_row_id is None && row.source_element is None,
    }
}

/// A destination snapshot is held exactly by an existing-target choice, for that target.
pub open spec fn destination_bound(m: Mapping) -> bool {
    match (m.choice, m.destination) {
        (Choice::Existing { target }, Some(d)) => target == d.id_spec(),
        (Choice::Existing { .. }, None) => false,
        (_, None) => true,
        (_, Some(_)) => false,
    }
}

/// Every stored column agrees with the mapping.
pub open spec fn matches_row(m: Mapping, row: StoredMapping) -> bool {
    &&& source_bound(m, row)
    &&& destination_bound(m)
    &&& m.kind@ == row.kind@
    &&& m.source_key@ == row.source_key_hmac@
    &&& opt_bytes(m.parent_key) == opt_bytes(row.parent_key)
    &&& m.qualified == row.qualified
    &&& disposition(m.choice) == row.disposition@
    &&& choice_target(m.choice) == row.target_id
}

fn element_value(element: u32) -> (r: Option<i32>)
    ensures
        r == element_column(element),
{
    if element <= 0x7fff_ffff {
        Some(element as i32)
    } else {
        None
    }
}

fn opt_bytes_equal(a: &Option<Vec<u8>>, b: &Option<Vec<u8>>) -> (same: bool)
    ensures
        same == (opt_bytes(*a) == opt_bytes(*b)),
{
    match (a, b) {
        (Some(x), Some(y)) => bytes_equal(x.as_slice(), y.as_slice()),
        (None, None) => true,
        _ => false,
    }
}

fn is_word(s: &String, word: &str) -> (same: bool)
    ensures
        same == (s@ == word@),
{
    *s == word.to_owned()
}

impl Mapping {
    /// Checks the mapping against the row it was stored as; any disagreement
    /// means the stored state was tampered with.
    pub fn verify(&self, row: &StoredMapping) -> (r: Result<(), MigrationError>)
        ensures
            r is Ok <==> matches_row(*self, *row),
            r is Err ==> r == Err::<(), MigrationError>(MigrationError::Crypto),
    {
        let (disposition_word, target) = self.choice.columns();
        let source_ok = match &self.source {
            Some(reference) => {
                let element = element_value(reference.element);
                let same_row = match row.source_row_id {
                    Some(id) => id == reference.row,
                    None => false,
                };
                let same_element = match (element, row.source_element) {
                    (Some(x), Some(y)) => x == y,
                    (None, None) => true,
                    _ => false,
                };
                same_row && same_element
            },
            None => is_word(&self.kind, "timezone") && row.source_row_id.is_none()
                && row.source_element.is_none(),
        };
        let destination_ok = match (&self.choice, &self.destination) {
            (Choice::Existing { target }, Some(destination)) => *target == destination.id(),
            (Choice::Existing { .. }, None) => false,
            (_, None) => true,
            (_, Some(_)) => false,
        };
        let target_ok = match (target, row.target_id) {
            (Some(x), Some(y)) => x == y,
            (None, None) => true,
            _ => false,
        };
        if !source_ok || !destination_ok || self.kind != row.kind || !bytes_equal(
            self.source_key.as_slice(),
            row.source_key_hmac.as_slice(),
        ) || !opt_bytes_equal(&self.parent_key, &row.parent_key) || self.qualified
            != row.qualified || disposition_word.to_owned() != row.disposition || !target_ok {
            return Err(MigrationError::Crypto);
        }
        Ok(())
    }
}

// ---------------------------------------------------------------------------
// The walk over sources: which elements of a source become mappings, and
// where each bounded step goes next.

/// Most mapping elements one step takes from a source.
pub const ELEMENTS_PER_STEP: usize = 50;

/// Longest label, in bytes, a mapping keeps as its summary.
pub const LABEL_BYTES: usize = 2048;

/// A source tag of a person record: its raw value, its display label and
/// whether it came without reasons against it.
#[derive(Debug, Clone)]
pub struct TagShape {
    pub raw: Option<String>,
    pub label: Option<String>,
    pub clean: bool,
}

/// A source choice of a field record.
#[derive(Debug, Clone)]
pub struct ChoiceShape {
    pub raw: Option<String>,
    pub label: Option<String>,
    pub clean: bool,
}

/// A person role of an activity record (`note_author`, `task_creator`,
/// `task_assignee`) and the source user it names.
#[derive(Debug, Clone)]
pub struct RoleShape {
    pub role: String,
    pub source_id: String,
}

/// What the walk reads of an authenticated source record.
#[derive(Debug, Clone)]
pub enum RecordShape {
    Person { source_id: Option<String>, tags: Vec<TagShape> },
    /// A field with its label, whether it came without reasons against it,
    /// whether nothing stands against creating it, and its choices.
    Field {
        source_id: Option<String>,
        label: Option<String>,
        clean: bool,
        creatable: bool,
        choices: Vec<ChoiceShape>,
    },
    InvalidMetadata { source_id: Option<String> },
    Activity {
        source_id: Option<String>,
        person_id: Option<String>,
        stream: String,
        roles: Vec<RoleShape>,
        source_type: Option<String>,
    },
    Oversized,
}

pub open spec fn opt_chars(o: Option<String>) -> Option<Seq<char>> {
    match o {
        Some(s) => Some(s@),
        None => None,
    }
}

pub open spec fn task_stream(stream: Seq<char>) -> bool {
    stream == "tasks_open"@ || stream == "tasks_completed"@
}

/// How many mapping elements a record offers: one per person tag; the field
/// and one per choice; one per activity role, and the task kind of a task;
/// none for notes, invalid or oversized records.
pub open spec fn slot_count(r: RecordShape) -> nat {
    match r {
        RecordShape::Person { tags, .. } => tags@.len(),
        RecordShape::Field { choices, .. } => 1 + choices@.len(),
        RecordShape::InvalidMetadata { .. } => 0,
        RecordShape::Activity { stream, roles, source_type, .. } => if stream@ == "notes"@ {
            0
        } else {
            roles@.len() + if task_stream(stream@) && source_type is Some {
                1nat
            } else {
                0nat
            }
        },
        RecordShape::Oversized => 0,
    }
}

pub fn slots(record: &RecordShape) -> (n: usize)
    requires
        slot_count(*record) <= usize::MAX,
    ensures
        n == slot_count(*record),
{
    match record {
        RecordShape::Person { tags, .. } => tags.len(),
        RecordShape::Field { choices, .. } => 1 + choices.len(),
        RecordShape::InvalidMetadata { .. } => 0,
        RecordShape::Activity { stream, roles, source_type, .. } => {
            if is_word(stream, "notes") {
                0
            } else if (is_word(stream, "tasks_open") || is_word(stream, "tasks_completed"))
                && source_type.is_some() {
                roles.len() + 1
            } else {
                roles.len()
            }
        },
        RecordShape::Oversized => 0,
    }
}

/// One mapping element before it is keyed: its kind, the purpose its source
/// key is derived for, the raw value keyed, the raw parent value of an
/// option, its label and its qualification.
pub struct Seed {
    pub kind: String,
    pub purpose: String,
    pub raw: Vec<u8>,
    pub parent: Option<Vec<u8>>,
    pub label: Option<String>,
    pub qualified: bool,
    pub creation_allowed: bool,
}

pub struct SeedView {
    pub kind: Seq<char>,
    pub purpose: Seq<char>,
    pub raw: Seq<u8>,
    pub parent: Option<Seq<u8>>,
    pub label: Option<Seq<char>>,
    pub qualified: bool,
    pub creation_allowed: bool,
}

pub open spec fn seed_view(s: Seed) -> SeedView {
    SeedView {
        kind: s.kind@,
        purpose: s.purpose@,
        raw: s.raw@,
        parent: match s.parent {
            Some(p) => Some(p@),
            None => None,
        },
        label: opt_chars(s.label),
        qualified: s.qualified,
        creation_allowed: s.creation_allowed,
    }
}

pub open spec fn seed_result(r: Result<Option<Seed>, MigrationError>) -> Result<Option<SeedView>, MigrationError> {
    match r {
        Ok(Some(s)) => Ok(Some(seed_view(s))),
        Ok(None) => Ok(None),
        Err(e) => Err(e),
    }
}

/// The element of an activity record: a role's user or a task's kind.
pub open spec fn activity_seed(kind: Seq<char>, value: Seq<char>) -> SeedView {
    SeedView {
        kind,
        purpose: kind,
        raw: encode_utf8(value),
        parent: None,
        label: Some(value),
        qualified: true,
        creation_allowed: false,
    }
}

pub open spec fn known_role(role: Seq<char>) -> bool {
    role == "note_author"@ || role == "task_creator"@ || role == "task_assignee"@
}

/// Element `index` of a record, if it offers one there. A labelled tag is
/// keyed by its group; an option is keyed by its field's source id and its
/// raw value as a JSON pair, under its field; an unknown activity role is
/// refused.
pub open spec fn seed_of(r: RecordShape, index: int) -> Result<Option<SeedView>, MigrationError> {
    match r {
        RecordShape::Person { tags, .. } => if !(0 <= index < tags@.len()) {
            Ok(None)
        } else {
            let t = tags@[index];
            match t.raw {
                None => Ok(None),
                Some(raw) => Ok(
                    Some(
                        SeedView {
                            kind: "tag"@,
                            purpose: if t.label is Some {
                                "tag-group"@
                            } else {
                                "tag-raw"@
                            },
                            raw: encode_utf8(raw@),
                            parent: None,
                            label: opt_chars(t.label),
                            qualified: t.clean,
                            creation_allowed: t.label is Some && t.clean,
                        },
                    ),
                ),
            }
        },
        RecordShape::Field { source_id, label, clean, creatable, choices } => match source_id {
            None => Ok(None),
            Some(id) => if index == 0 {
                Ok(
                    Some(
                        SeedView {
                            kind: "field"@,
                            purpose: "field"@,
                            raw: encode_utf8(id@),
                            parent: None,
                            label: opt_chars(label),
                            qualified: clean,
                            creation_allowed: creatable && clean,
                        },
                    ),
                )
            } else if !(1 <= index <= choices@.len()) {
                Ok(None)
            } else {
                let c = choices@[index - 1];
                match c.raw {
                    None => Ok(None),
                    Some(raw) => match pair_json(id@, raw@) {
                        None => Err(MigrationError::Crypto),
                        Some(bytes) => Ok(
                            Some(
                                SeedView {
                                    kind: "option"@,
                                    purpose: "option"@,
                                    raw: bytes,
                                    parent: Some(encode_utf8(id@)),
                                    label: opt_chars(c.label),
                                    qualified: clean && c.clean,
                                    creation_allowed: c.label is Some && c.clean,
                                },
                            ),
                        ),
                    },
                }
            },
        },
        RecordShape::InvalidMetadata { .. } => Ok(None),
        RecordShape::Activity { stream, roles, source_type, .. } => if 0 <= index < roles@.len() {
            let role = roles@[index];
            if known_role(role.role@) {
                Ok(Some(activity_seed(role.role@, role.source_id@)))
            } else {
                Err(MigrationError::Crypto)
            }
        } else if index == roles@.len() && task_stream(stream@) {
            match source_type {
                None => Ok(None),
                Some(v) => Ok(Some(activity_seed("task_kind"@, v@))),
            }
        } else {
            Ok(None)
        },
        RecordShape::Oversized => Ok(None),
    }
}

fn text_bytes(s: &String) -> (b: Vec<u8>)
    ensures
        b@ == encode_utf8(s@),
{
    copy_bytes(s.as_str().as_bytes())
}

fn copy_text(o: &Option<String>) -> (c: Option<String>)
    ensures
        opt_chars(c) == opt_chars(*o),
{
    match o {
        Some(s) => Some(s.clone()),
        None => None,
    }
}

fn activity_element(kind: &str, value: &String) -> (s: Seed)
    ensures
        seed_view(s) == activity_seed(kind@, value@),
{
    Seed {
        kind: kind.to_owned(),
        purpose: kind.to_owned(),
        raw: text_bytes(value),
        parent: None,
        label: Some(value.clone()),
        qualified: true,
        creation_allowed: false,
    }
}

pub fn seed(record: &RecordShape, index: usize) -> (r: Result<Option<Seed>, MigrationError>)
    ensures
        seed_result(r) == seed_of(*record, index as int),
{
    match record {
        RecordShape::Person { tags, .. } => {
            if index >= tags.len() {
                return Ok(None);
            }
            let t = &tags[index];
            match &t.raw {
                None => Ok(None),
                Some(raw) => {
                    let labelled = t.label.is_some();
                    Ok(
                        Some(
                            Seed {
                                kind: "tag".to_owned(),
                                purpose: if labelled {
                                    "tag-group".to_owned()
                                } else {
                                    "tag-raw".to_owned()
                                },
                                raw: text_bytes(raw),
                                parent: None,
                                label: copy_text(&t.label),
                                qualified: t.clean,
                                creation_allowed: labelled && t.clean,
                            },
                        ),
                    )
                },
            }
        },
        RecordShape::Field { source_id, label, clean, creatable, choices } => {
            let id = match source_id {
                None => return Ok(None),
                Some(id) => id,
            };
            if index == 0 {
                return Ok(
                    Some(
                        Seed {
                            kind: "field".to_owned(),
                            purpose: "field".to_owned(),
                            raw: text_bytes(id),
                            parent: None,
                            label: copy_text(label),
                            qualified: *clean,
                            creation_allowed: *creatable && *clean,
                        },
                    ),
                );
            }
            if index - 1 >= choices.len() {
                return Ok(None);
            }
            let c = &choices[index - 1];
            let raw = match &c.raw {
                None => return Ok(None),
                Some(raw) => raw,
            };
            match write_pair_json(id.as_str(), raw.as_str()) {
                None => Err(MigrationError::Crypto),
                Some(bytes) => Ok(
                    Some(
                        Seed {
                            kind: "option".to_owned(),
                            purpose: "option".to_owned(),
                            raw: bytes,
                            parent: Some(text_bytes(id)),
                            label: copy_text(&c.label),
                            qualified: *clean && c.clean,
                            creation_allowed: c.label.is_some() && c.clean,
                        },
                    ),
                ),
            }
        },
        RecordShape::InvalidMetadata { .. } => Ok(None),
        RecordShape::Activity { stream, roles, source_type, .. } => {
            if index < roles.len() {
                let role = &roles[index];
                if is_word(&role.role, "note_author") {
                    Ok(Some(activity_element("note_author", &role.source_id)))
                } else if is_word(&role.role, "task_creator") {
                    Ok(Some(activity_element("task_creator", &role.source_id)))
                } else if is_word(&role.role, "task_assignee") {
                    Ok(Some(activity_element("task_assignee", &role.source_id)))
                } else {
                    Err(MigrationError::Crypto)
                }
            } else if index == roles.len() && (is_word(stream, "tasks_open") || is_word(
                stream,
                "tasks_completed",
            )) {
                match source_type {
                    None => Ok(None),
                    Some(v) => Ok(Some(activity_element("task_kind", v))),
                }
            } else {
                Ok(None)
            }
        },
        RecordShape::Oversized => Ok(None),
    }
}

/// The opening check of a step: a history plan or a plan outside its
/// mappings phase is refused; a walk already complete is finished.
pub open spec fn start_result(family: Family, phase: Seq<char>, complete: bool) -> Result<
    Option<Progress>,
    MigrationError,
> {
    if family == Family::History || phase != "mappings"@ {
        Err(MigrationError::Conflict)
    } else if complete {
        Ok(Some(Progress::Finished))
    } else {
        Ok(None)
    }
}

pub fn walk_start(family: Family, phase: &str, complete: bool) -> (r: Result<Option<Progress>, MigrationError>)
    ensures
        r == start_result(family, phase@, complete),
{
    if family == Family::History || phase.to_owned() != "mappings".to_owned() {
        Err(MigrationError::Conflict)
    } else if complete {
        Ok(Some(Progress::Finished))
    } else {
        Ok(None)
    }
}

/// The plan that owns a source occurrence, as stored beside it.
pub struct SourceOwner {
    pub family: Family,
    pub phase: String,
}

/// The next source must be the one a paused step was in, and its owning plan
/// must be a non-history plan past its cohort and capture phases.
pub open spec fn source_check_result(current: Option<u128>, source: u128, owner: SourceOwner) -> Result<
    (),
    MigrationError,
> {
    if current matches Some(c) && c != source {
        Err(MigrationError::Crypto)
    } else if owner.family == Family::History || owner.phase@ == "cohort"@ || owner.phase@ == "capture"@ {
        Err(MigrationError::Conflict)
    } else {
        Ok(())
    }
}

pub fn source_check(current: Option<u128>, source: u128, owner: &SourceOwner) -> (r: Result<(), MigrationError>)
    ensures
        r == source_check_result(current, source, *owner),
{
    if let Some(c) = current {
        if c != source {
            return Err(MigrationError::Crypto);
        }
    }
    if owner.family == Family::History || is_word(&owner.phase, "cohort") || is_word(&owner.phase, "capture") {
        Err(MigrationError::Conflict)
    } else {
        Ok(())
    }
}

/// The stored columns of a source occurrence the record must agree with.
pub struct SourceColumns {
    pub kind: String,
    pub source_id: Option<String>,
    pub person_id: Option<String>,
}

/// A decrypted record agrees with its row: a metadata plan reads person and
/// field records with the row's source id (a person's source person is
/// itself); an activity plan reads notes and tasks of the row's stream, source
/// id and person; an oversized record carries nothing to compare.
pub open spec fn record_consistent(family: Family, row: SourceColumns, record: RecordShape) -> bool {
    match record {
        RecordShape::Person { source_id, .. } => metadata_consistent(family, row, source_id),
        RecordShape::Field { source_id, .. } => metadata_consistent(family, row, source_id),
        RecordShape::InvalidMetadata { source_id } => metadata_consistent(family, row, source_id),
        RecordShape::Activity { source_id, person_id, stream, .. } => {
            &&& family == Family::Activity
            &&& opt_chars(source_id) == opt_chars(row.source_id)
            &&& opt_chars(person_id) == opt_chars(row.person_id)
            &&& (row.kind@ == "note"@ && (stream@ == "notes"@ || stream@ == "note_detail"@)) || (row.kind@
                == "task"@ && task_stream(stream@))
        },
        RecordShape::Oversized => true,
    }
}

pub open spec fn metadata_consistent(family: Family, row: SourceColumns, source_id: Option<String>) -> bool {
    &&& family == Family::Metadata
    &&& row.kind@ == "person"@ || row.kind@ == "field"@
    &&& opt_chars(source_id) == opt_chars(row.source_id)
    &&& row.kind@ != "person"@ || opt_chars(row.person_id) == opt_chars(row.source_id)
}

fn same_text(a: &Option<String>, b: &Option<String>) -> (same: bool)
    ensures
        same == (opt_chars(*a) == opt_chars(*b)),
{
    match (a, b) {
        (Some(x), Some(y)) => *x == *y,
        (None, None) => true,
        _ => false,
    }
}

fn metadata_agrees(family: Family, row: &SourceColumns, source_id: &Option<String>) -> (ok: bool)
    ensures
        ok == metadata_consistent(family, *row, *source_id),
{
    family == Family::Metadata && (is_word(&row.kind, "person") || is_word(&row.kind, "field")) && same_text(
        source_id,
        &row.source_id,
    ) && (!is_word(&row.kind, "person") || same_text(&row.person_id, &row.source_id))
}

pub fn consistent(family: Family, row: &SourceColumns, record: &RecordShape) -> (ok: bool)
    ensures
        ok == record_consistent(family, *row, *record),
{
    match record {
        RecordShape::Person { source_id, .. } => metadata_agrees(family, row, source_id),
        RecordShape::Field { source_id, .. } => metadata_agrees(family, row, source_id),
        RecordShape::InvalidMetadata { source_id } => metadata_agrees(family, row, source_id),
        RecordShape::Activity { source_id, person_id, stream, .. } => {
            family == Family::Activity && same_text(source_id, &row.source_id) && same_text(
                person_id,
                &row.person_id,
            ) && ((is_word(&row.kind, "note") && (is_word(stream, "notes") || is_word(stream, "note_detail")))
                || (is_word(&row.kind, "task") && (is_word(stream, "tasks_open") || is_word(
                stream,
                "tasks_completed",
            ))))
        },
        RecordShape::Oversized => true,
    }
}

/// The elements `[offset, end)` of a source one step takes, out of `total`.
#[derive(Debug, Clone, Copy, PartialEq, Eq, Structural)]
pub struct Window {
    pub offset: usize,
    pub end: usize,
    pub total: usize,
}

/// The window of a step: a record that disagrees with its row is refused; a
/// person's elements count only while its source person is in the cohort
/// (field records always count); the resume offset must lie within them; a
/// step takes at most `ELEMENTS_PER_STEP` elements.
pub open spec fn window_result(
    family: Family,
    row: SourceColumns,
    record: RecordShape,
    in_cohort: bool,
    offset: i32,
) -> Result<Window, MigrationError> {
    if !record_consistent(family, row, record) {
        Err(MigrationError::Crypto)
    } else {
        let total: int = if row.kind@ == "field"@ || in_cohort {
            slot_count(record) as int
        } else {
            0
        };
        if offset < 0 || offset > total {
            Err(MigrationError::Crypto)
        } else {
            Ok(
                Window {
                    offset: offset as usize,
                    end: (if offset + ELEMENTS_PER_STEP < total {
                        offset + ELEMENTS_PER_STEP
                    } else {
                        total
                    }) as usize,
                    total: total as usize,
                },
            )
        }
    }
}

pub fn window(family: Family, row: &SourceColumns, record: &RecordShape, in_cohort: bool, offset: i32) -> (r:
    Result<Window, MigrationError>)
    requires
        slot_count(*record) + ELEMENTS_PER_STEP <= usize::MAX,
    ensures
        r == window_result(family, *row, *record, in_cohort, offset),
{
    if !consistent(family, row, record) {
        return Err(MigrationError::Crypto);
    }
    let total = if is_word(&row.kind, "field") || in_cohort {
        slots(record)
    } else {
        0
    };
    if offset < 0 {
        return Err(MigrationError::Crypto);
    }
    let start = offset as usize;
    if start > total {
        return Err(MigrationError::Crypto);
    }
    let end = if start + ELEMENTS_PER_STEP < total {
        start + ELEMENTS_PER_STEP
    } else {
        total
    };
    Ok(Window { offset: start, end, total })
}

/// Where the walk resumes after a step.
#[derive(Debug, Clone, Copy, PartialEq, Eq, Structural)]
pub enum Cursor {
    /// The source is done: the next step starts after it.
    NextSource { after: u128 },
    /// The source goes on at element `offset`.
    SameSource { current: u128, offset: i32 },
}

pub open spec fn cursor_result(source: u128, w: Window) -> Result<Cursor, MigrationError> {
    if w.end == w.total {
        Ok(Cursor::NextSource { after: source })
    } else if w.end <= i32::MAX {
        Ok(Cursor::SameSource { current: source, offset: w.end as i32 })
    } else {
        Err(MigrationError::Crypto)
    }
}

pub fn cursor_after(source: u128, w: Window) -> (r: Result<Cursor, MigrationError>)
    ensures
        r == cursor_result(source, w),
{
    if w.end == w.total {
        Ok(Cursor::NextSource { after: source })
    } else if w.end <= 2147483647usize {
        Ok(Cursor::SameSource { current: source, offset: w.end as i32 })
    } else {
        Err(MigrationError::Crypto)
    }
}

/// The walk over a source loses and repeats no element: a step's window lies
/// within the source's elements, holds at most `ELEMENTS_PER_STEP` of them and
/// moves forward while any remain, and the next step resumes exactly where
/// this one ended, or after the source once its last element is taken.
pub proof fn law_steps_resume_where_they_ended(
    family: Family,
    row: SourceColumns,
    record: RecordShape,
    in_cohort: bool,
    offset: i32,
    source: u128,
)
    requires
        slot_count(record) + ELEMENTS_PER_STEP <= usize::MAX,
    ensures
        window_result(family, row, record, in_cohort, offset) matches Ok(w) ==> {
            &&& w.offset == offset
            &&& w.offset <= w.end <= w.total
            &&& w.end - w.offset <= ELEMENTS_PER_STEP
            &&& w.offset < w.total ==> w.offset < w.end
            &&& w.end == w.total ==> cursor_result(source, w) == Ok::<Cursor, MigrationError>(
                Cursor::NextSource { after: source },
            )
            &&& w.end < w.total && w.end <= i32::MAX ==> cursor_result(source, w) == Ok::<Cursor, MigrationError>(
                Cursor::SameSource { current: source, offset: w.end as i32 },
            )
        },
{
}

/// The storage a step reserves for its sealed new mappings: a fixed 4096
/// bytes, and each sealed payload with 2048 bytes of row overhead.
pub open spec fn reservation(lengths: Seq<usize>) -> int
    decreases lengths.len(),
{
    if lengths.len() == 0 {
        4096
    } else {
        reservation(lengths.drop_last()) + lengths.last() + 2048
    }
}

proof fn lemma_reservation_grows(lengths: Seq<usize>, i: int)
    requires
        0 <= i <= lengths.len(),
    ensures
        reservation(lengths.take(i)) <= reservation(lengths),
    decreases lengths.len(),
{
    if i < lengths.len() {
        assert(lengths.drop_last().take(i) =~= lengths.take(i));
        lemma_reservation_grows(lengths.drop_last(), i);
    } else {
        assert(lengths.take(i) =~= lengths);
    }
}

/// No reservation for a step that adds nothing; else the byte bound of the
/// new sealed mappings, refused as a storage limit past `i64::MAX`.
pub fn reservation_bound(lengths: &Vec<usize>) -> (r: Result<Option<i64>, MigrationError>)
    ensures
        lengths@.len() == 0 ==> r == Ok::<Option<i64>, MigrationError>(None),
        lengths@.len() > 0 ==> r == if reservation(lengths@) <= i64::MAX {
            Ok::<Option<i64>, MigrationError>(Some(reservation(lengths@) as i64))
        } else {
            Err(MigrationError::StorageLimit)
        },
{
    if lengths.len() == 0 {
        return Ok(None);
    }
    let mut sum: i64 = 4096;
    let mut i: usize = 0;
    assert(lengths@.take(0) =~= Seq::<usize>::empty());
    while i < lengths.len()
        invariant
            i <= lengths@.len(),
            4096 <= sum,
            sum == reservation(lengths@.take(i as int)),
        decreases lengths.len() - i,
    {
        assert(lengths@.take(i as int + 1).drop_last() =~= lengths@.take(i as int));
        let size = lengths[i];
        if size as u128 + 2048 > 9223372036854775807u128 - sum as u128 {
            proof {
                lemma_reservation_grows(lengths@, i as int + 1);
            }
            return Err(MigrationError::StorageLimit);
        }
        sum = sum + size as i64 + 2048;
        i = i + 1;
    }
    assert(lengths@.take(lengths@.len() as int) =~= lengths@);
    Ok(Some(sum))
}

/// The columns of a mapping already stored under the same kind and key.
pub struct ExistingRow {
    pub source_row_id: Option<u128>,
    pub source_element: Option<i32>,
    pub qualified: bool,
    pub parent_id: Option<u128>,
}

/// A mapping already stored under the same kind and key must be the one this
/// step would record: bound to its stored source element, equally qualified,
/// of this kind and key, and under this parent.
pub open spec fn existing_matches(
    m: Mapping,
    row: ExistingRow,
    kind: Seq<char>,
    key: Seq<u8>,
    parent_key: Option<Seq<u8>>,
    parent: Option<u128>,
) -> bool {
    &&& m.source matches Some(r) && Some(r.row) == row.source_row_id && element_column(r.element) == row.source_element
    &&& m.qualified == row.qualified
    &&& m.kind@ == kind
    &&& m.source_key@ == key
    &&& opt_bytes(m.parent_key) == parent_key
    &&& row.parent_id == parent
}

pub fn check_existing(
    m: &Mapping,
    row: &ExistingRow,
    kind: &str,
    key: &Vec<u8>,
    parent_key: &Option<Vec<u8>>,
    parent: Option<u128>,
) -> (r: Result<(), MigrationError>)
    ensures
        r is Ok <==> existing_matches(*m, *row, kind@, key@, opt_bytes(*parent_key), parent),
        r matches Err(e) ==> e == MigrationError::Crypto,
{
    let bound = match &m.source {
        Some(reference) => {
            let same_row = match row.source_row_id {
                Some(id) => id == reference.row,
                None => false,
            };
            let same_element = match (element_value(reference.element), row.source_element) {
                (Some(x), Some(y)) => x == y,
                (None, None) => true,
                _ => false,
            };
            same_row && same_element
        },
        None => false,
    };
    if !bound || m.qualified != row.qualified || !is_word(&m.kind, kind) || !bytes_equal(
        m.source_key.as_slice(),
        key.as_slice(),
    ) || !opt_bytes_equal(&m.parent_key, parent_key) || row.parent_id != parent {
        return Err(MigrationError::Crypto);
    }
    Ok(())
}

/// An element whose kind and key this step already recorded is passed over.
pub open spec fn already_recorded(ids: Seq<(String, Vec<u8>)>, kind: Seq<char>, key: Seq<u8>) -> bool {
    exists|i: int| 0 <= i < ids.len() && #[trigger] ids[i].0@ == kind && ids[i].1@ == key
}

pub fn recorded(ids: &Vec<(String, Vec<u8>)>, kind: &str, key: &Vec<u8>) -> (found: bool)
    ensures
        found == already_recorded(ids@, kind@, key@),
{
    let mut i: usize = 0;
    while i < ids.len()
        invariant
            i <= ids@.len(),
            forall|j: int| 0 <= j < i ==> !(#[trigger] ids@[j].0@ == kind@ && ids@[j].1@ == key@),
        decreases ids.len() - i,
    {
        if is_word(&ids[i].0, kind) && bytes_equal(ids[i].1.as_slice(), key.as_slice()) {
            return true;
        }
        i = i + 1;
    }
    false
}

/// A mapping first seen: held, taken from element `element` of `source`,
/// with its label kept only up to `LABEL_BYTES`, and creatable only when it
/// is also qualified.
pub fn fresh_mapping(seed: Seed, source_key: Vec<u8>, parent_key: Option<Vec<u8>>, source: u128, element: u32) -> (m:
    Mapping)
    ensures
        m.kind@ == seed.kind@,
        m.source_key@ == source_key@,
        m.parent_key == parent_key,
        m.source == Some(Reference { row: source, element }),
        opt_chars(m.label) == match seed.label {
            Some(l) => if encode_utf8(l@).len() as usize <= LABEL_BYTES {
                Some(l@)
            } else {
                None
            },
            None => None,
        },
        m.qualified == seed.qualified,
        m.creation_allowed == (seed.qualified && seed.creation_allowed),
        m.choice == Choice::Hold,
        m.destination is None,
{
    let label = match seed.label {
        Some(l) => if l.as_str().len() <= LABEL_BYTES {
            Some(l)
        } else {
            None
        },
        None => None,
    };
    Mapping {
        kind: seed.kind,
        source_key,
        parent_key,
        source: Some(Reference { row: source, element }),
        label,
        qualified: seed.qualified,
        creation_allowed: seed.qualified && seed.creation_allowed,
        choice: Choice::Hold,
        destination: None,
    }
}

} // verus!
