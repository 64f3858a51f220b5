//! Mapping vocabulary: the kinds of catalog and role mappings and the
//! dispositions an operator may choose for them.
use super::mapping_inventory::Choice;
use super::model::{page_limit, page_limit_result, Family};
use crate::error::MigrationError;
use vstd::prelude::*;

verus! {

#[derive(Debug, Clone, Copy, PartialEq, Eq, Structural)]
pub enum Kind {
    Tag,
    Field,
    Option,
    NoteAuthor,
    TaskCreator,
    TaskAssignee,
    TaskKind,
    Timezone,
}

pub open spec fn mapping_kind_name(value: Kind) -> Seq<char> {
    match value {
        Kind::Tag => "tag"@,
        Kind::Field => "field"@,
        Kind::Option => "option"@,
        Kind::NoteAuthor => "note_author"@,
        Kind::TaskCreator => "task_creator"@,
        Kind::TaskAssignee => "task_assignee"@,
        Kind::TaskKind => "task_kind"@,
        Kind::Timezone => "timezone"@,
    }
}

impl Kind {
    pub fn as_str(self) -> (name: &'static str)
        ensures
            name@ == mapping_kind_name(self),
    {
        match self {
            Kind::Tag => "tag",
            Kind::Field => "field",
            Kind::Option => "option",
            Kind::NoteAuthor => "note_author",
            Kind::TaskCreator => "task_creator",
            Kind::TaskAssignee => "task_assignee",
            Kind::TaskKind => "task_kind",
            Kind::Timezone => "timezone",
        }
    }
}

pub open spec fn mapping_kind_family(kind: Kind) -> Family {
    match kind {
        Kind::Tag | Kind::Field | Kind::Option => Family::Metadata,
        _ => Family::Activity,
    }
}

impl Kind {
    /// Catalog mappings belong to the metadata family, role, kind and timezone
    /// mappings to the activity family.
    pub fn family(self) -> (family: Family)
        ensures
            family == mapping_kind_family(self),
    {
        match self {
            Kind::Tag | Kind::Field | Kind::Option => Family::Metadata,
            _ => Family::Activity,
        }
    }
}

#[derive(Debug, Clone, Copy, PartialEq, Eq, Structural)]
pub enum Disposition {
    Hold,
    Existing,
    CreateMatching,
    Unassigned,
    Kind,
    Timezone,
}

pub open spec fn disposition_name(value: Disposition) -> Seq<char> {
    match value {
        Disposition::Hold => "hold"@,
        Disposition::Existing => "existing"@,
        Disposition::CreateMatching => "create_matching"@,
        Disposition::Unassigned => "unassigned"@,
        Disposition::Kind => "kind"@,
        Disposition::Timezone => "timezone"@,
    }
}

impl Disposition {
    pub fn as_str(self) -> (name: &'static str)
        ensures
            name@ == disposition_name(self),
    {
        match self {
            Disposition::Hold => "hold",
            Disposition::Existing => "existing",
            Disposition::CreateMatching => "create_matching",
            Disposition::Unassigned => "unassigned",
            Disposition::Kind => "kind",
            Disposition::Timezone => "timezone",
        }
    }
}


/// Current scoped suggestions only. Selecting one still goes through Plan,
/// which snapshots and revalidates its exact compatible destination.
#[derive(Debug, Clone)]
pub struct TargetPage {
    pub limit: Option<u16>,
    pub cursor: Option<String>,
}

impl TargetPage {
    /// The page size: 25 unless asked, between 1 and the page maximum.
    pub fn page_limit(&self) -> (r: Result<u16, MigrationError>)
        ensures
            r == page_limit_result(self.limit),
    {
        page_limit(self.limit)
    }
}

/// A suggested native target.
#[derive(Debug, Clone)]
pub struct Target {
    pub id: u128,
    pub label: String,
    pub field_type: Option<String>,
    pub status: Option<String>,
}

#[derive(Debug, Clone)]
pub struct Targets {
    pub mapping_id: u128,
    pub items: Vec<Target>,
    pub next_cursor: Option<String>,
}

/// A query for one page of a plan's mappings.
#[derive(Debug, Clone)]
pub struct MappingPage {
    pub family: Family,
    pub plan_id: u128,
    pub kind: Option<Kind>,
    pub disposition: Option<Disposition>,
    pub limit: Option<u16>,
    pub cursor: Option<String>,
}

/// A valid mapping page size, for a kind that belongs to the queried family.
pub open spec fn mapping_limit_result(page: MappingPage) -> Result<u16, MigrationError> {
    match page.kind {
        Some(k) => if mapping_kind_family(k) != page.family {
            Err(MigrationError::InvalidInput)
        } else {
            page_limit_result(page.limit)
        },
        None => page_limit_result(page.limit),
    }
}

impl MappingPage {
    pub fn page_limit(&self) -> (r: Result<u16, MigrationError>)
        ensures
            r == mapping_limit_result(*self),
    {
        let n = match page_limit(self.limit) {
            Ok(n) => n,
            Err(e) => return Err(e),
        };
        match self.kind {
            Some(k) => if k.family() != self.family {
                Err(MigrationError::InvalidInput)
            } else {
                Ok(n)
            },
            None => Ok(n),
        }
    }
}

/// A cursor's window of mapping ids: after `after`, up to `upper`.
#[derive(Debug, Clone, Copy, PartialEq, Eq, Structural)]
pub struct MappingPosition {
    pub after: Option<u128>,
    pub upper: Option<u128>,
}

/// A window is refused when it starts past its end (or has no end).
pub open spec fn mapping_window_ok(p: MappingPosition) -> bool {
    match p.after {
        Some(a) => match p.upper {
            Some(u) => a <= u,
            None => false,
        },
        None => true,
    }
}

pub fn mapping_window(p: MappingPosition) -> (r: Result<MappingPosition, MigrationError>)
    ensures
        mapping_window_ok(p) ==> r == Ok::<MappingPosition, MigrationError>(p),
        !mapping_window_ok(p) ==> r == Err::<MappingPosition, MigrationError>(MigrationError::InvalidInput),
{
    let ok = match p.after {
        Some(a) => match p.upper {
            Some(u) => a <= u,
            None => false,
        },
        None => true,
    };
    if ok {
        Ok(p)
    } else {
        Err(MigrationError::InvalidInput)
    }
}

/// One mapping of a page.
#[derive(Debug, Clone)]
pub struct Summary {
    pub id: u128,
    pub parent_id: Option<u128>,
    pub kind: Kind,
    pub label: Option<String>,
    pub value_qualified: bool,
    pub creation_allowed: bool,
    pub choice: Choice,
}

/// A page of mappings.
#[derive(Debug, Clone)]
pub struct Mappings {
    pub bundle_id: u128,
    pub bundle_revision: i64,
    pub plan_id: u128,
    pub plan_revision: i64,
    pub family: Family,
    pub inventory_complete: bool,
    pub items: Vec<Summary>,
    pub next_cursor: Option<String>,
}

} // verus!
