//! Bounded manifest item pages: outcomes and kinds of reviewable items, the
//! page a query asks for, and the position window a cursor may hold.
use super::model::{page_limit, page_limit_result, Counts, Family};
use crate::error::MigrationError;
use vstd::prelude::*;

verus! {

#[derive(Debug, Clone, Copy, PartialEq, Eq, Structural)]
pub enum Outcome {
    Insert,
    Update,
    AlreadyCurrent,
    Correction,
    Held,
    Excluded,
}

pub open spec fn item_outcome_name(value: Outcome) -> Seq<char> {
    match value {
        Outcome::Insert => "insert"@,
        Outcome::Update => "update"@,
        Outcome::AlreadyCurrent => "already_current"@,
        Outcome::Correction => "correction"@,
        Outcome::Held => "held"@,
        Outcome::Excluded => "excluded"@,
    }
}

impl Outcome {
    pub fn as_str(self) -> (name: &'static str)
        ensures
            name@ == item_outcome_name(self),
    {
        match self {
            Outcome::Insert => "insert",
            Outcome::Update => "update",
            Outcome::AlreadyCurrent => "already_current",
            Outcome::Correction => "correction",
            Outcome::Held => "held",
            Outcome::Excluded => "excluded",
        }
    }
}

/// The kind of a manifest item.
#[derive(Debug, Clone, Copy, PartialEq, Eq, Structural)]
pub enum ItemKind {
    Catalog,
    Metadata,
    Note,
    Task,
    Event,
    Call,
    Text,
}

pub open spec fn item_kind_name(k: ItemKind) -> Seq<char> {
    match k {
        ItemKind::Catalog => "catalog"@,
        ItemKind::Metadata => "metadata"@,
        ItemKind::Note => "note"@,
        ItemKind::Task => "task"@,
        ItemKind::Event => "event"@,
        ItemKind::Call => "call"@,
        ItemKind::Text => "text"@,
    }
}

impl ItemKind {
    pub fn as_str(self) -> (name: &'static str)
        ensures
            name@ == item_kind_name(self),
    {
        match self {
            ItemKind::Catalog => "catalog",
            ItemKind::Metadata => "metadata",
            ItemKind::Note => "note",
            ItemKind::Task => "task",
            ItemKind::Event => "event",
            ItemKind::Call => "call",
            ItemKind::Text => "text",
        }
    }
}

/// A query for one page of a plan's manifest items.
#[derive(Debug, Clone)]
pub struct ItemPage {
    pub family: Family,
    pub plan_id: u128,
    pub cohort_id: Option<u128>,
    pub outcome: Option<Outcome>,
    pub limit: Option<u16>,
    pub cursor: Option<String>,
}

impl ItemPage {
    /// The page size: 25 unless asked, between 1 and the page maximum.
    pub fn page_limit(&self) -> (r: Result<u16, MigrationError>)
        ensures
            r == page_limit_result(self.limit),
    {
        page_limit(self.limit)
    }
}

/// A cursor's window of plan positions: after `after`, up to `upper`.
#[derive(Debug, Clone, Copy, PartialEq, Eq, Structural)]
pub struct Position {
    pub after: i64,
    pub upper: i64,
}

/// The window to page: the cursor's, or the whole plan as it stands; a
/// cursor window must lie within the plan.
pub open spec fn window_result(cursor: Option<Position>, plan_position: i64) -> Result<
    Position,
    MigrationError,
> {
    let p = match cursor {
        Some(c) => c,
        None => Position { after: 0, upper: plan_position },
    };
    if p.after < 0 || p.upper < p.after || p.upper > plan_position {
        Err(MigrationError::InvalidInput)
    } else {
        Ok(p)
    }
}

pub fn window(cursor: Option<Position>, plan_position: i64) -> (r: Result<Position, MigrationError>)
    ensures
        r == window_result(cursor, plan_position),
{
    let p = match cursor {
        Some(c) => c,
        None => Position { after: 0, upper: plan_position },
    };
    if p.after < 0 || p.upper < p.after || p.upper > plan_position {
        Err(MigrationError::InvalidInput)
    } else {
        Ok(p)
    }
}

/// One item of a page.
#[derive(Debug, Clone)]
pub struct ItemSummary {
    pub id: u128,
    pub position: i64,
    pub kind: ItemKind,
    pub cohort_id: Option<u128>,
    pub person_id: Option<u128>,
    pub target_id: Option<u128>,
    pub outcome: Outcome,
    pub reason: Option<String>,
    pub counts: Counts,
}

/// A page of items.
#[derive(Debug, Clone)]
pub struct Items {
    pub bundle_id: u128,
    pub bundle_revision: i64,
    pub plan_id: u128,
    pub plan_revision: i64,
    pub family: Family,
    pub items: Vec<ItemSummary>,
    pub next_cursor: Option<String>,
}

} // verus!
