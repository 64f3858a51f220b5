//! Explicit mapping intent validation. Nothing here creates a native
//! destination; an existing target is looked up by the caller and checked here.
use crate::error::MigrationError;
use super::activity_delta::Instant;
use super::mapping_inventory::{Choice, Mapping};
use super::model::new_id;
use vstd::prelude::*;

verus! {

/// What the operator asked for one mapping element.
#[derive(Debug, Clone)]
pub enum Selection {
    Hold,
    Existing { target_id: u128 },
    CreateMatching,
    Unassigned,
    Kind { kind: String },
}

/// An operator's choice for one mapping.
#[derive(Debug, Clone)]
pub struct MappingPatch {
    pub mapping_id: u128,
    pub choice: Selection,
}

/// Snapshot of the native row an existing-target choice points at.
#[derive(Debug, Clone)]
pub enum Destination {
    Tag { id: u128, label: String, updated_at: Instant },
    Field {
        id: u128,
        label: String,
        field_type: String,
        source: Option<String>,
        external_key: Option<String>,
        updated_at: Instant,
    },
    Option { id: u128, field_id: u128, label: String, updated_at: Instant },
    Member { id: u128, label: String, status: String },
}

impl Destination {
    pub open spec fn id_spec(self) -> u128 {
        match self {
            Destination::Tag { id, .. } => id,
            Destination::Field { id, .. } => id,
            Destination::Option { id, .. } => id,
            Destination::Member { id, .. } => id,
        }
    }

    pub fn id(&self) -> (id: u128)
        ensures
            id == self.id_spec(),
    {
        match self {
            Destination::Tag { id, .. } => *id,
            Destination::Field { id, .. } => *id,
            Destination::Option { id, .. } => *id,
            Destination::Member { id, .. } => *id,
        }
    }
}

/// What the authenticated source says of a custom field definition.
#[derive(Debug, Clone)]
pub struct SourceField {
    pub field_type: Option<String>,
    pub name: Option<String>,
}

/// The native table an existing target of a mapping kind is looked up in.
#[derive(Debug, Clone, Copy, PartialEq, Eq, Structural)]
pub enum Lookup {
    Tag,
    Field,
    Option,
    Member,
}

/// The native row found for an existing target, as read by the caller.
#[derive(Debug, Clone)]
pub enum Found {
    Tag { label: String, updated_at: Instant },
    Field {
        label: String,
        field_type: String,
        source: Option<String>,
        external_key: Option<String>,
        updated_at: Instant,
    },
    Option { field_id: u128, label: String, updated_at: Instant },
    Member { label: String, status: String },
}

/// The first step of a selection: decided outright, or waiting on one lookup.
#[derive(Debug, Clone)]
pub enum Step {
    Decided { choice: Choice, destination: Option<Destination> },
    Lookup { lookup: Lookup, target: u128 },
}

pub open spec fn is_member_kind(kind: Seq<char>) -> bool {
    kind == "note_author"@ || kind == "task_creator"@ || kind == "task_assignee"@
}

/// Where an existing target of a mapping kind lives, if it can have one.
pub open spec fn lookup_of(kind: Seq<char>) -> Option<Lookup> {
    if kind == "tag"@ {
        Some(Lookup::Tag)
    } else if kind == "field"@ {
        Some(Lookup::Field)
    } else if kind == "option"@ {
        Some(Lookup::Option)
    } else if is_member_kind(kind) {
        Some(Lookup::Member)
    } else {
        None
    }
}

/// A matching destination may be created for the mapping.
pub open spec fn creatable(m: Mapping, parent_target: Option<u128>) -> bool {
    &&& (m.kind@ == "tag"@ || m.kind@ == "field"@ || m.kind@ == "option"@)
    &&& m.creation_allowed
    &&& (m.kind@ != "option"@ || parent_target is Some)
}

pub open spec fn decided(choice: Choice) -> Result<Step, MigrationError> {
    Ok(Step::Decided { choice, destination: None })
}

/// The first step of validating `selection` for mapping `m`; `fresh` is the
/// identifier a newly created destination will get.
pub open spec fn plan_result(
    m: Mapping,
    source_field: Option<SourceField>,
    selection: Selection,
    parent_target: Option<u128>,
    fresh: u128,
) -> Result<Step, MigrationError> {
    let invalid = Err(MigrationError::InvalidImportChoice);
    match selection {
        Selection::Hold => decided(Choice::Hold),
        _ => if !m.qualified {
            invalid
        } else {
            match selection {
                Selection::CreateMatching => if creatable(m, parent_target) {
                    decided(Choice::CreateMatching { target: fresh })
                } else {
                    invalid
                },
                Selection::Unassigned => if is_member_kind(m.kind@) {
                    decided(Choice::Unassigned)
                } else {
                    invalid
                },
                Selection::Kind { kind } => if m.kind@ == "task_kind"@ {
                    decided(Choice::Kind { kind })
                } else {
                    invalid
                },
                Selection::Existing { target_id } => match lookup_of(m.kind@) {
                    Some(Lookup::Field) => if source_field is None {
                        Err(MigrationError::Crypto)
                    } else {
                        Ok(Step::Lookup { lookup: Lookup::Field, target: target_id })
                    },
                    Some(lookup) => Ok(Step::Lookup { lookup, target: target_id }),
                    None => invalid,
                },
                Selection::Hold => invalid,
            }
        },
    }
}

pub open spec fn opt_chars(s: Option<String>) -> Option<Seq<char>> {
    match s {
        Some(v) => Some(v@),
        None => None,
    }
}

/// A native field conflicts with the source definition: another type, or
/// owned by an import under another key.
pub open spec fn field_conflicts(
    field: SourceField,
    field_type: String,
    native_source: Option<String>,
    external_key: Option<String>,
) -> bool {
    ||| opt_chars(field.field_type) != Some(field_type@)
    ||| (native_source is Some && (opt_chars(native_source) != Some("fub"@) || opt_chars(
        external_key,
    ) != opt_chars(field.name)))
}

/// The choice and destination snapshot for an existing `target` of mapping `m`,
/// given what the lookup found.
pub open spec fn existing_result(
    m: Mapping,
    source_field: Option<SourceField>,
    parent_target: Option<u128>,
    target: u128,
    found: Option<Found>,
) -> Result<(Choice, Option<Destination>), MigrationError> {
    let invalid = Err(MigrationError::InvalidImportChoice);
    let chosen = Choice::Existing { target };
    match found {
        None => invalid,
        Some(f) => match (lookup_of(m.kind@), f) {
            (Some(Lookup::Tag), Found::Tag { label, updated_at }) => Ok(
                (chosen, Some(Destination::Tag { id: target, label, updated_at })),
            ),
            (
                Some(Lookup::Field),
                Found::Field { label, field_type, source, external_key, updated_at },
            ) => match source_field {
                None => Err(MigrationError::Crypto),
                Some(field) => if field_conflicts(field, field_type, source, external_key) {
                    invalid
                } else {
                    Ok(
                        (
                            chosen,
                            Some(
                                Destination::Field {
                                    id: target,
                                    label,
                                    field_type,
                                    source,
                                    external_key,
                                    updated_at,
                                },
                            ),
                        ),
                    )
                },
            },
            (Some(Lookup::Option), Found::Option { field_id, label, updated_at }) => if Some(
                field_id,
            ) != parent_target {
                invalid
            } else {
                Ok(
                    (
                        chosen,
                        Some(Destination::Option { id: target, field_id, label, updated_at }),
                    ),
                )
            },
            (Some(Lookup::Member), Found::Member { label, status }) => if m.kind@
                == "task_assignee"@ && status@ != "active"@ {
                invalid
            } else {
                Ok((chosen, Some(Destination::Member { id: target, label, status })))
            },
            _ => invalid,
        },
    }
}

/// The timezone choice for a zone the caller has checked against the zone
/// database (`recognized`).
pub open spec fn timezone_result(zone: Option<String>, recognized: bool) -> Result<
    Choice,
    MigrationError,
> {
    match zone {
        Some(z) => if recognized {
            Ok(Choice::Timezone { zone: z })
        } else {
            Err(MigrationError::InvalidInput)
        },
        None => Ok(Choice::Hold),
    }
}

fn is_word(s: &String, word: &str) -> (same: bool)
    ensures
        same == (s@ == word@),
{
    *s == word.to_owned()
}

fn lookup_for(kind: &String) -> (l: Option<Lookup>)
    ensures
        l == lookup_of(kind@),
{
    if is_word(kind, "tag") {
        Some(Lookup::Tag)
    } else if is_word(kind, "field") {
        Some(Lookup::Field)
    } else if is_word(kind, "option") {
        Some(Lookup::Option)
    } else if is_word(kind, "note_author") || is_word(kind, "task_creator") || is_word(
        kind,
        "task_assignee",
    ) {
        Some(Lookup::Member)
    } else {
        None
    }
}

fn same_opt_string(a: &Option<String>, b: &Option<String>) -> (same: bool)
    ensures
        same == (opt_chars(*a) == opt_chars(*b)),
{
    match (a, b) {
        (Some(x), Some(y)) => *x == *y,
        (None, None) => true,
        _ => false,
    }
}

/// The first step of validating `selection`, with `fresh` as the identifier of
/// a destination still to be created.
pub fn plan_with(
    mapping: &Mapping,
    source_field: &Option<SourceField>,
    selection: &Selection,
    parent_target: Option<u128>,
    fresh: u128,
) -> (r: Result<Step, MigrationError>)
    ensures
        r == plan_result(*mapping, *source_field, *selection, parent_target, fresh),
{
    if let Selection::Hold = selection {
        return Ok(Step::Decided { choice: Choice::Hold, destination: None });
    }
    if !mapping.qualified {
        return Err(MigrationError::InvalidImportChoice);
    }
    match selection {
        Selection::CreateMatching => {
            let shaped = is_word(&mapping.kind, "tag") || is_word(&mapping.kind, "field")
                || is_word(&mapping.kind, "option");
            if shaped && mapping.creation_allowed && (!is_word(&mapping.kind, "option")
                || parent_target.is_some()) {
                Ok(Step::Decided { choice: Choice::CreateMatching { target: fresh }, destination: None })
            } else {
                Err(MigrationError::InvalidImportChoice)
            }
        },
        Selection::Unassigned => {
            if is_word(&mapping.kind, "note_author") || is_word(&mapping.kind, "task_creator")
                || is_word(&mapping.kind, "task_assignee") {
                Ok(Step::Decided { choice: Choice::Unassigned, destination: None })
            } else {
                Err(MigrationError::InvalidImportChoice)
            }
        },
        Selection::Kind { kind } => {
            if is_word(&mapping.kind, "task_kind") {
                Ok(Step::Decided { choice: Choice::Kind { kind: kind.clone() }, destination: None })
            } else {
                Err(MigrationError::InvalidImportChoice)
            }
        },
        Selection::Existing { target_id } => match lookup_for(&mapping.kind) {
            Some(Lookup::Field) => {
                if source_field.is_none() {
                    Err(MigrationError::Crypto)
                } else {
                    Ok(Step::Lookup { lookup: Lookup::Field, target: *target_id })
                }
            },
            Some(lookup) => Ok(Step::Lookup { lookup, target: *target_id }),
            None => Err(MigrationError::InvalidImportChoice),
        },
        Selection::Hold => Err(MigrationError::InvalidImportChoice),
    }
}

/// The first step of validating `selection`; a destination still to be
/// created gets a fresh random identifier.
pub fn plan(
    mapping: &Mapping,
    source_field: &Option<SourceField>,
    selection: &Selection,
    parent_target: Option<u128>,
) -> (r: Result<Step, MigrationError>)
    ensures
        exists|fresh: u128|
            r == plan_result(*mapping, *source_field, *selection, parent_target, fresh),
{
    let fresh = new_id();
    plan_with(mapping, source_field, selection, parent_target, fresh)
}

/// Completes an existing-target selection from the native row the lookup found.
pub fn existing(
    mapping: &Mapping,
    source_field: &Option<SourceField>,
    parent_target: Option<u128>,
    target: u128,
    found: Option<Found>,
) -> (r: Result<(Choice, Option<Destination>), MigrationError>)
    ensures
        r == existing_result(*mapping, *source_field, parent_target, target, found),
{
    let f = match found {
        None => return Err(MigrationError::InvalidImportChoice),
        Some(f) => f,
    };
    let chosen = Choice::Existing { target };
    match (lookup_for(&mapping.kind), f) {
        (Some(Lookup::Tag), Found::Tag { label, updated_at }) => Ok(
            (chosen, Some(Destination::Tag { id: target, label, updated_at })),
        ),
        (Some(Lookup::Field), Found::Field { label, field_type, source, external_key, updated_at }) => {
            match source_field {
                None => Err(MigrationError::Crypto),
                Some(field) => {
                    let type_differs = match &field.field_type {
                        Some(t) => *t != field_type,
                        None => true,
                    };
                    let foreign = match &source {
                        Some(s) => !is_word(s, "fub") || !same_opt_string(&external_key, &field.name),
                        None => false,
                    };
                    if type_differs || foreign {
                        Err(MigrationError::InvalidImportChoice)
                    } else {
                        Ok(
                            (
                                chosen,
                                Some(
                                    Destination::Field {
                                        id: target,
                                        label,
                                        field_type,
                                        source,
                                        external_key,
                                        updated_at,
                                    },
                                ),
                            ),
                        )
                    }
                },
            }
        },
        (Some(Lookup::Option), Found::Option { field_id, label, updated_at }) => {
            let same_parent = match parent_target {
                Some(p) => p == field_id,
                None => false,
            };
            if !same_parent {
                Err(MigrationError::InvalidImportChoice)
            } else {
                Ok((chosen, Some(Destination::Option { id: target, field_id, label, updated_at })))
            }
        },
        (Some(Lookup::Member), Found::Member { label, status }) => {
            if is_word(&mapping.kind, "task_assignee") && !is_word(&status, "active") {
                Err(MigrationError::InvalidImportChoice)
            } else {
                Ok((chosen, Some(Destination::Member { id: target, label, status })))
            }
        },
        _ => Err(MigrationError::InvalidImportChoice),
    }
}

/// The timezone choice: a recognized zone is kept, no zone holds, and an
/// unrecognized zone is refused.
pub fn timezone(zone: Option<String>, recognized: bool) -> (r: Result<Choice, MigrationError>)
    ensures
        r == timezone_result(zone, recognized),
{
    match zone {
        Some(zone) => if recognized {
            Ok(Choice::Timezone { zone })
        } else {
            Err(MigrationError::InvalidInput)
        },
        None => Ok(Choice::Hold),
    }
}

} // verus!
