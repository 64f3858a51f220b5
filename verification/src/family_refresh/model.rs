//! Closed refresh policy model. A comparison is not write authority:
//! persistence revalidates these proofs under the workspace, family, identity
//! and native-record locks at commit.
//!
//! Identifiers are carried as their 128-bit values, and a native row is carried
//! as its canonical serialization, so two rows are the same native value exactly
//! when their canonical encodings are equal.
use vstd::prelude::*;
use vstd::string::StringSliceAdditionalSpecFns;

verus! {

pub const ENGINE: &'static str = "fub-family-refresh-v1";
pub const PAGE_MAX: u16 = 50;
pub const RESPONSE_BYTES: usize = 512 * 1024;
pub const FIELD_BYTES: usize = 16 * 1024;

#[derive(Debug, Clone, Copy, PartialEq, Eq, Structural, PartialOrd, Ord)]
pub enum Family {
    Metadata,
    Activity,
    History,
}

pub open spec fn family_name(family: Family) -> Seq<char> {
    match family {
        Family::Metadata => "metadata"@,
        Family::Activity => "activity"@,
        Family::History => "history"@,
    }
}

impl Family {
    pub fn as_str(self) -> (name: &'static str)
        ensures
            name@ == family_name(self),
    {
        match self {
            Family::Metadata => "metadata",
            Family::Activity => "activity",
            Family::History => "history",
        }
    }
}

#[derive(Debug, Clone, Copy, PartialEq, Eq, Structural)]
pub enum Kind {
    Metadata,
    Note,
    Task,
    Event,
    Call,
    Text,
}

pub open spec fn kind_family(kind: Kind) -> Family {
    match kind {
        Kind::Metadata => Family::Metadata,
        Kind::Note | Kind::Task => Family::Activity,
        Kind::Event | Kind::Call | Kind::Text => Family::History,
    }
}

impl Kind {
    pub fn family(self) -> (family: Family)
        ensures
            family == kind_family(self),
    {
        match self {
            Kind::Metadata => Family::Metadata,
            Kind::Note | Kind::Task => Family::Activity,
            Kind::Event | Kind::Call | Kind::Text => Family::History,
        }
    }
}

#[derive(Debug, Clone, Copy, PartialEq, Eq, Structural)]
pub enum Hold {
    FirstCoverageRequired,
    BaselineUnproven,
    SourceNotObserved,
    SourceUnavailable,
    SourceConflict,
    SourceNotNewer,
    UnsupportedSource,
    TargetErased,
    IdentityMismatch,
    LocalChange,
    StaleHead,
    MappingRequired,
    TargetUnavailable,
    UnitTooLarge,
}

/// Wire name of a hold reason.
pub open spec fn hold_name(hold: Hold) -> Seq<char> {
    match hold {
        Hold::FirstCoverageRequired => "first_coverage_required"@,
        Hold::BaselineUnproven => "baseline_unproven"@,
        Hold::SourceNotObserved => "source_not_observed"@,
        Hold::SourceUnavailable => "source_unavailable"@,
        Hold::SourceConflict => "source_conflict"@,
        Hold::SourceNotNewer => "source_not_newer"@,
        Hold::UnsupportedSource => "unsupported_source"@,
        Hold::TargetErased => "target_erased"@,
        Hold::IdentityMismatch => "identity_mismatch"@,
        Hold::LocalChange => "local_change"@,
        Hold::StaleHead => "stale_head"@,
        Hold::MappingRequired => "mapping_required"@,
        Hold::TargetUnavailable => "target_unavailable"@,
        Hold::UnitTooLarge => "unit_too_large"@,
    }
}

impl Hold {
    pub fn as_str(self) -> (name: &'static str)
        ensures
            name@ == hold_name(self),
    {
        match self {
            Hold::FirstCoverageRequired => "first_coverage_required",
            Hold::BaselineUnproven => "baseline_unproven",
            Hold::SourceNotObserved => "source_not_observed",
            Hold::SourceUnavailable => "source_unavailable",
            Hold::SourceConflict => "source_conflict",
            Hold::SourceNotNewer => "source_not_newer",
            Hold::UnsupportedSource => "unsupported_source",
            Hold::TargetErased => "target_erased",
            Hold::IdentityMismatch => "identity_mismatch",
            Hold::LocalChange => "local_change",
            Hold::StaleHead => "stale_head",
            Hold::MappingRequired => "mapping_required",
            Hold::TargetUnavailable => "target_unavailable",
            Hold::UnitTooLarge => "unit_too_large",
        }
    }
}

/// A native state that can be compared exactly: a canonical byte encoding or
/// a native row.
pub trait Native: View + Sized {
    /// The representation is well formed.
    spec fn valid(&self) -> bool;

    fn same(&self, other: &Self) -> (same: bool)
        requires
            self.valid(),
            other.valid(),
        ensures
            same == (self@ == other@),
    ;
}

impl Native for Vec<u8> {
    open spec fn valid(&self) -> bool {
        true
    }

    fn same(&self, other: &Self) -> (same: bool) {
        bytes_equal(self.as_slice(), other.as_slice())
    }
}

/// Immutable original/admitted result, or prior family-refresh result.
#[derive(Clone)]
pub struct Baseline<N> {
    pub result_id: u128,
    pub person_id: u128,
    pub target_id: u128,
    pub revision: i64,
    /// The native state the result left behind.
    pub native: N,
    /// True only for a positively proven migration-created link/value/record.
    /// Recognizing an equal existing value does not acquire its ownership.
    pub owned: bool,
    pub head_id: Option<u128>,
}

#[derive(Clone)]
pub struct Current<N> {
    pub person_id: u128,
    pub target_id: u128,
    pub revision: i64,
    /// The native state as it is now.
    pub native: N,
    pub deleted: bool,
    pub head_id: Option<u128>,
}

#[derive(Debug, Clone, Copy, PartialEq, Eq, Structural)]
pub enum Outcome {
    Insert,
    Update,
    AlreadyCurrent,
    Held(Hold),
}

/// The closed decision table of a native comparison.
pub open spec fn native_outcome<N: View>(
    baseline: Option<Baseline<N>>,
    current: Option<Current<N>>,
    desired: N::V,
    identity_consumed: bool,
    first_coverage: bool,
) -> Outcome {
    if !first_coverage {
        Outcome::Held(Hold::FirstCoverageRequired)
    } else {
        match baseline {
            None => if identity_consumed || current is Some {
                Outcome::Held(Hold::BaselineUnproven)
            } else {
                Outcome::Insert
            },
            Some(b) => match current {
                None => Outcome::Held(Hold::TargetErased),
                Some(c) => if c.deleted {
                    Outcome::Held(Hold::TargetErased)
                } else if b.person_id != c.person_id || b.target_id != c.target_id {
                    Outcome::Held(Hold::IdentityMismatch)
                } else if b.head_id != c.head_id {
                    Outcome::Held(Hold::StaleHead)
                } else if b.revision != c.revision || b.native@ != c.native@ {
                    Outcome::Held(Hold::LocalChange)
                } else if c.native@ == desired {
                    Outcome::AlreadyCurrent
                } else if b.owned {
                    Outcome::Update
                } else {
                    Outcome::Held(Hold::BaselineUnproven)
                },
            },
        }
    }
}

pub open spec fn deref_opt<T>(value: Option<&T>) -> Option<T> {
    match value {
        Some(v) => Some(*v),
        None => None,
    }
}

/// The page size a query asks for: 25 by default, between 1 and `PAGE_MAX`.
pub open spec fn page_limit_result(limit: Option<u16>) -> Result<u16, crate::error::MigrationError> {
    let n = match limit {
        Some(n) => n,
        None => 25u16,
    };
    if n == 0 || n > PAGE_MAX {
        Err(crate::error::MigrationError::InvalidInput)
    } else {
        Ok(n)
    }
}

pub fn page_limit(limit: Option<u16>) -> (r: Result<u16, crate::error::MigrationError>)
    ensures
        r == page_limit_result(limit),
{
    let n = match limit {
        Some(n) => n,
        None => 25,
    };
    if n == 0 || n > PAGE_MAX {
        Err(crate::error::MigrationError::InvalidInput)
    } else {
        Ok(n)
    }
}

/// Calls `uuid::Uuid::new_v4`: a random identifier for a row still to be
/// created. Nothing is promised of its value.
#[verifier::external_body]
pub(crate) fn new_id() -> (id: u128) {
    uuid::Uuid::new_v4().as_u128()
}

/// Byte-wise equality of two canonical encodings.
pub fn bytes_equal(a: &[u8], b: &[u8]) -> (equal: bool)
    ensures
        equal == (a@ == b@),
{
    if a.len() != b.len() {
        return false;
    }
    let mut i: usize = 0;
    while i < a.len()
        invariant
            a.len() == b.len(),
            i <= a.len(),
            forall|j: int| 0 <= j < i ==> a@[j] == b@[j],
        decreases a.len() - i,
    {
        if a[i] != b[i] {
            return false;
        }
        i = i + 1;
    }
    assert(a@ =~= b@);
    true
}

pub fn same_id(a: Option<u128>, b: Option<u128>) -> (same: bool)
    ensures
        same == (a == b),
{
    match (a, b) {
        (None, None) => true,
        (Some(x), Some(y)) => x == y,
        _ => false,
    }
}

/// Qualified new identities may insert after initial family coverage. Existing
/// unowned or erased identities can never be adopted by value equality.
pub fn compare_native<N: Native>(
    baseline: Option<&Baseline<N>>,
    current: Option<&Current<N>>,
    desired: &N,
    identity_consumed: bool,
    first_coverage: bool,
) -> (outcome: Outcome)
    requires
        baseline matches Some(b) ==> b.native.valid(),
        current matches Some(c) ==> c.native.valid(),
        desired.valid(),
    ensures
        outcome == native_outcome(
            deref_opt(baseline),
            deref_opt(current),
            desired@,
            identity_consumed,
            first_coverage,
        ),
{
    if !first_coverage {
        return Outcome::Held(Hold::FirstCoverageRequired);
    }
    let b = match baseline {
        Some(b) => b,
        None => {
            return if identity_consumed || current.is_some() {
                Outcome::Held(Hold::BaselineUnproven)
            } else {
                Outcome::Insert
            };
        },
    };
    let c = match current {
        Some(c) => c,
        None => {
            return Outcome::Held(Hold::TargetErased);
        },
    };
    if c.deleted {
        return Outcome::Held(Hold::TargetErased);
    }
    if b.person_id != c.person_id || b.target_id != c.target_id {
        return Outcome::Held(Hold::IdentityMismatch);
    }
    if !same_id(b.head_id, c.head_id) {
        return Outcome::Held(Hold::StaleHead);
    }
    // Check the revision before value equality. An edit-and-revert is still a
    // local mutation, even when it happens to equal the source's new value.
    if b.revision != c.revision || !b.native.same(&c.native) {
        return Outcome::Held(Hold::LocalChange);
    }
    if c.native.same(desired) {
        Outcome::AlreadyCurrent
    } else if b.owned {
        Outcome::Update
    } else {
        Outcome::Held(Hold::BaselineUnproven)
    }
}

/// Without initial family coverage nothing is ever written.
pub proof fn law_first_coverage_gates_every_write<N: View>(
    baseline: Option<Baseline<N>>,
    current: Option<Current<N>>,
    desired: N::V,
    identity_consumed: bool,
)
    ensures
        native_outcome(baseline, current, desired, identity_consumed, false)
            == Outcome::Held(Hold::FirstCoverageRequired),
{
}

/// A new row is inserted only for an identity that was never consumed and has
/// neither a proven baseline nor a current native row.
pub proof fn law_insert_needs_unconsumed_absent_identity<N: View>(
    baseline: Option<Baseline<N>>,
    current: Option<Current<N>>,
    desired: N::V,
    identity_consumed: bool,
    first_coverage: bool,
)
    ensures
        native_outcome(baseline, current, desired, identity_consumed, first_coverage)
            == Outcome::Insert <==> (first_coverage && baseline is None && current is None
            && !identity_consumed),
{
}

/// Any revision change between the baseline and the current row is a local
/// mutation, even an edit-and-revert whose value equals the desired source.
pub proof fn law_revision_change_is_local_change<N: View>(
    baseline: Baseline<N>,
    current: Current<N>,
    desired: N::V,
    identity_consumed: bool,
)
    requires
        !current.deleted,
        baseline.person_id == current.person_id,
        baseline.target_id == current.target_id,
        baseline.head_id == current.head_id,
        baseline.revision != current.revision,
    ensures
        native_outcome(Some(baseline), Some(current), desired, identity_consumed, true)
            == Outcome::Held(Hold::LocalChange),
{
}

/// An update requires positive ownership and an exact, unchanged baseline.
pub proof fn law_update_needs_ownership_and_exact_baseline<N: View>(
    baseline: Option<Baseline<N>>,
    current: Option<Current<N>>,
    desired: N::V,
    identity_consumed: bool,
    first_coverage: bool,
)
    ensures
        native_outcome(baseline, current, desired, identity_consumed, first_coverage)
            == Outcome::Update ==> {
            &&& first_coverage
            &&& baseline is Some && current is Some
            &&& baseline->0.owned
            &&& !current->0.deleted
            &&& baseline->0.revision == current->0.revision
            &&& baseline->0.native@ == current->0.native@
            &&& baseline->0.head_id == current->0.head_id
            &&& baseline->0.person_id == current->0.person_id
            &&& baseline->0.target_id == current->0.target_id
            &&& current->0.native@ != desired
        },
{
}

/// Erased or missing targets are never adopted, whatever the desired value.
pub proof fn law_erased_target_never_written<N: View>(
    baseline: Baseline<N>,
    current: Option<Current<N>>,
    desired: N::V,
    identity_consumed: bool,
)
    requires
        current is None || current->0.deleted,
    ensures
        native_outcome(Some(baseline), current, desired, identity_consumed, true)
            == Outcome::Held(Hold::TargetErased),
{
}

#[derive(Debug, Clone, Copy, PartialEq, Eq, Structural)]
pub enum TagState {
    Complete,
    Missing,
    Null,
    Invalid,
}

pub open spec fn tag_removable(
    state: TagState,
    aliases_still_present: bool,
    baseline: Baseline<Vec<u8>>,
    current: Current<Vec<u8>>,
) -> bool {
    state == TagState::Complete && !aliases_still_present && baseline.owned
        && native_outcome(Some(baseline), Some(current), Seq::empty(), true, true)
        == Outcome::Update
}

/// All source aliases must be absent from a qualified complete tag list. An
/// already-present local tag, deleted target or unknown list is never removable.
/// The desired state of a removed link is the empty encoding.
pub fn removable_tag(
    state: TagState,
    aliases_still_present: bool,
    baseline: &Baseline<Vec<u8>>,
    current: &Current<Vec<u8>>,
) -> (removable: bool)
    ensures
        removable == tag_removable(state, aliases_still_present, *baseline, *current),
{
    let empty: Vec<u8> = Vec::new();
    state == TagState::Complete && !aliases_still_present && baseline.owned
        && compare_native(Some(baseline), Some(current), &empty, true, true)
        == Outcome::Update
}

/// A removable tag is an owned, unchanged link whose complete source list no
/// longer names any of its aliases.
pub proof fn law_tag_removal_needs_complete_list_and_owned_unchanged_link(
    state: TagState,
    aliases_still_present: bool,
    baseline: Baseline<Vec<u8>>,
    current: Current<Vec<u8>>,
)
    ensures
        tag_removable(state, aliases_still_present, baseline, current) ==> {
            &&& state == TagState::Complete
            &&& !aliases_still_present
            &&& baseline.owned
            &&& !current.deleted
            &&& baseline.revision == current.revision
            &&& baseline.native@ == current.native@
            &&& baseline.head_id == current.head_id
        },
{
}

#[derive(Debug, Clone, Copy, PartialEq, Eq, Structural)]
pub enum HistoryChange {
    New,
    AlreadyCurrent,
    Correction,
    Held(Hold),
}

pub open spec fn history_change(
    existing: Option<(Seq<u8>, u128)>,
    desired_semantic: Seq<u8>,
    desired_person: u128,
    source_is_newer: bool,
    has_variants: bool,
    erased: bool,
) -> HistoryChange {
    if erased {
        HistoryChange::Held(Hold::TargetErased)
    } else if has_variants {
        HistoryChange::Held(Hold::SourceConflict)
    } else if !source_is_newer {
        HistoryChange::Held(Hold::SourceNotNewer)
    } else {
        match existing {
            None => HistoryChange::New,
            Some((semantic, person)) => if person != desired_person {
                HistoryChange::Held(Hold::IdentityMismatch)
            } else if semantic == desired_semantic {
                HistoryChange::AlreadyCurrent
            } else {
                HistoryChange::Correction
            },
        }
    }
}

pub open spec fn existing_view(existing: Option<(&[u8], u128)>) -> Option<(Seq<u8>, u128)> {
    match existing {
        Some((semantic, person)) => Some((semantic@, person)),
        None => None,
    }
}

/// Full canonical source equality matters even if displayed metadata is equal.
/// Target changes and same-capture variants are never fix-forward corrections.
pub fn compare_history(
    existing: Option<(&[u8], u128)>,
    desired_semantic: &[u8],
    desired_person: u128,
    source_is_newer: bool,
    has_variants: bool,
    erased: bool,
) -> (change: HistoryChange)
    ensures
        change == history_change(
            existing_view(existing),
            desired_semantic@,
            desired_person,
            source_is_newer,
            has_variants,
            erased,
        ),
{
    if erased {
        return HistoryChange::Held(Hold::TargetErased);
    }
    if has_variants {
        return HistoryChange::Held(Hold::SourceConflict);
    }
    if !source_is_newer {
        return HistoryChange::Held(Hold::SourceNotNewer);
    }
    match existing {
        None => HistoryChange::New,
        Some((semantic, person)) => {
            if person != desired_person {
                HistoryChange::Held(Hold::IdentityMismatch)
            } else if bytes_equal(semantic, desired_semantic) {
                HistoryChange::AlreadyCurrent
            } else {
                HistoryChange::Correction
            }
        },
    }
}

/// A history correction needs a later, unambiguous, same-person source whose
/// canonical semantic bytes differ from the existing version.
pub proof fn law_history_correction_needs_later_same_person_source(
    existing: Option<(Seq<u8>, u128)>,
    desired_semantic: Seq<u8>,
    desired_person: u128,
    source_is_newer: bool,
    has_variants: bool,
    erased: bool,
)
    ensures
        history_change(
            existing,
            desired_semantic,
            desired_person,
            source_is_newer,
            has_variants,
            erased,
        ) == HistoryChange::Correction <==> {
            &&& !erased && !has_variants && source_is_newer
            &&& existing matches Some((semantic, person)) && person == desired_person
                && semantic != desired_semantic
        },
{
}


/// Per-unit action counts. Every count stays within the signed 64-bit range so
/// it crosses the wire without loss of precision.
#[derive(Debug, Clone, Copy, PartialEq, Eq, Structural)]
pub struct Counts {
    pub units: u64,
    pub inserts: u64,
    pub updates: u64,
    pub already_current: u64,
    pub held: u64,
    pub excluded: u64,
    pub tag_removals: u64,
    pub field_clears: u64,
    pub task_completions: u64,
    pub task_reopens: u64,
    pub history_corrections: u64,
    pub source_only: u64,
}

pub open spec fn zero_counts() -> Counts {
    Counts {
        units: 0,
        inserts: 0,
        updates: 0,
        already_current: 0,
        held: 0,
        excluded: 0,
        tag_removals: 0,
        field_clears: 0,
        task_completions: 0,
        task_reopens: 0,
        history_corrections: 0,
        source_only: 0,
    }
}

impl Default for Counts {
    fn default() -> (counts: Self)
        ensures
            counts == zero_counts(),
    {
        Counts {
            units: 0,
            inserts: 0,
            updates: 0,
            already_current: 0,
            held: 0,
            excluded: 0,
            tag_removals: 0,
            field_clears: 0,
            task_completions: 0,
            task_reopens: 0,
            history_corrections: 0,
            source_only: 0,
        }
    }
}

pub open spec fn wire_count(value: int) -> bool {
    0 <= value <= i64::MAX
}

/// Whether every field of the sum of two counts stays a wire count.
pub open spec fn sum_fits(a: Counts, b: Counts) -> bool {
    &&& wire_count(a.units + b.units)
    &&& wire_count(a.inserts + b.inserts)
    &&& wire_count(a.updates + b.updates)
    &&& wire_count(a.already_current + b.already_current)
    &&& wire_count(a.held + b.held)
    &&& wire_count(a.excluded + b.excluded)
    &&& wire_count(a.tag_removals + b.tag_removals)
    &&& wire_count(a.field_clears + b.field_clears)
    &&& wire_count(a.task_completions + b.task_completions)
    &&& wire_count(a.task_reopens + b.task_reopens)
    &&& wire_count(a.history_corrections + b.history_corrections)
    &&& wire_count(a.source_only + b.source_only)
}

pub open spec fn counts_sum(a: Counts, b: Counts) -> Counts {
    Counts {
        units: (a.units + b.units) as u64,
        inserts: (a.inserts + b.inserts) as u64,
        updates: (a.updates + b.updates) as u64,
        already_current: (a.already_current + b.already_current) as u64,
        held: (a.held + b.held) as u64,
        excluded: (a.excluded + b.excluded) as u64,
        tag_removals: (a.tag_removals + b.tag_removals) as u64,
        field_clears: (a.field_clears + b.field_clears) as u64,
        task_completions: (a.task_completions + b.task_completions) as u64,
        task_reopens: (a.task_reopens + b.task_reopens) as u64,
        history_corrections: (a.history_corrections + b.history_corrections) as u64,
        source_only: (a.source_only + b.source_only) as u64,
    }
}

pub open spec fn spec_checked_add(a: Counts, b: Counts) -> Option<Counts> {
    if sum_fits(a, b) {
        Some(counts_sum(a, b))
    } else {
        None
    }
}

/// The six outcome counts partition the units exactly.
pub open spec fn spec_reconciles(c: Counts) -> bool {
    c.inserts + c.updates + c.already_current + c.held + c.excluded + c.history_corrections
        == c.units
}

pub open spec fn spec_useful(c: Counts) -> bool {
    c.inserts > 0 || c.updates > 0 || c.already_current > 0 || c.history_corrections > 0
}

/// Sum of one field that never wraps and never leaves the wire range.
fn add_count(a: u64, b: u64) -> (sum: Option<u64>)
    ensures
        sum == (if wire_count(a + b) {
            Some((a + b) as u64)
        } else {
            None::<u64>
        }),
{
    match a.checked_add(b) {
        Some(v) => if v <= i64::MAX as u64 {
            Some(v)
        } else {
            None
        },
        None => None,
    }
}

/// Adds `count` to `total` unless the running sum would leave u64.
fn fold_count(total: Option<u64>, count: u64) -> (next: Option<u64>)
    ensures
        next == (match total {
            Some(t) => if t + count <= u64::MAX {
                Some((t + count) as u64)
            } else {
                None::<u64>
            },
            None => None::<u64>,
        }),
{
    match total {
        Some(t) => t.checked_add(count),
        None => None,
    }
}

impl Counts {
    /// Add one bounded unit without wrapping counts or losing wire precision.
    pub fn checked_add(&self, other: &Self) -> (sum: Option<Self>)
        ensures
            sum == spec_checked_add(*self, *other),
    {
        let units = match add_count(self.units, other.units) {
            Some(v) => v,
            None => return None,
        };
        let inserts = match add_count(self.inserts, other.inserts) {
            Some(v) => v,
            None => return None,
        };
        let updates = match add_count(self.updates, other.updates) {
            Some(v) => v,
            None => return None,
        };
        let already_current = match add_count(self.already_current, other.already_current) {
            Some(v) => v,
            None => return None,
        };
        let held = match add_count(self.held, other.held) {
            Some(v) => v,
            None => return None,
        };
        let excluded = match add_count(self.excluded, other.excluded) {
            Some(v) => v,
            None => return None,
        };
        let tag_removals = match add_count(self.tag_removals, other.tag_removals) {
            Some(v) => v,
            None => return None,
        };
        let field_clears = match add_count(self.field_clears, other.field_clears) {
            Some(v) => v,
            None => return None,
        };
        let task_completions = match add_count(self.task_completions, other.task_completions) {
            Some(v) => v,
            None => return None,
        };
        let task_reopens = match add_count(self.task_reopens, other.task_reopens) {
            Some(v) => v,
            None => return None,
        };
        let history_corrections = match add_count(
            self.history_corrections,
            other.history_corrections,
        ) {
            Some(v) => v,
            None => return None,
        };
        let source_only = match add_count(self.source_only, other.source_only) {
            Some(v) => v,
            None => return None,
        };
        Some(
            Counts {
                units,
                inserts,
                updates,
                already_current,
                held,
                excluded,
                tag_removals,
                field_clears,
                task_completions,
                task_reopens,
                history_corrections,
                source_only,
            },
        )
    }

    pub fn useful(&self) -> (useful: bool)
        ensures
            useful == spec_useful(*self),
    {
        self.inserts > 0 || self.updates > 0 || self.already_current > 0
            || self.history_corrections > 0
    }

    pub fn reconciles(&self) -> (reconciles: bool)
        ensures
            reconciles == spec_reconciles(*self),
    {
        let mut total = Some(0u64);
        total = fold_count(total, self.inserts);
        total = fold_count(total, self.updates);
        total = fold_count(total, self.already_current);
        total = fold_count(total, self.held);
        total = fold_count(total, self.excluded);
        total = fold_count(total, self.history_corrections);
        match total {
            Some(t) => t == self.units,
            None => false,
        }
    }
}

/// Accumulating two reconciled counts whose sum fits yields reconciled counts.
pub proof fn law_accumulation_preserves_reconciliation(a: Counts, b: Counts)
    requires
        spec_reconciles(a),
        spec_reconciles(b),
        spec_checked_add(a, b) is Some,
    ensures
        spec_reconciles(spec_checked_add(a, b)->0),
{
}

/// Accumulation is order independent.
pub proof fn law_accumulation_commutes(a: Counts, b: Counts)
    ensures
        spec_checked_add(a, b) == spec_checked_add(b, a),
{
    if sum_fits(a, b) {
        assert(counts_sum(a, b) == counts_sum(b, a));
    }
}

/// Adding zero counts changes nothing for wire-range counts.
pub proof fn law_zero_is_neutral(a: Counts)
    requires
        a.units <= i64::MAX,
        a.inserts <= i64::MAX,
        a.updates <= i64::MAX,
        a.already_current <= i64::MAX,
        a.held <= i64::MAX,
        a.excluded <= i64::MAX,
        a.tag_removals <= i64::MAX,
        a.field_clears <= i64::MAX,
        a.task_completions <= i64::MAX,
        a.task_reopens <= i64::MAX,
        a.history_corrections <= i64::MAX,
        a.source_only <= i64::MAX,
    ensures
        spec_checked_add(a, zero_counts()) == Some(a),
{
    assert(counts_sum(a, zero_counts()) == a);
}

/// Wire form of a count: a canonical unsigned decimal that fits a signed
/// 64-bit integer. Numeric JSON and noncanonical forms are rejected rather than
/// silently rounded or coerced.
#[derive(Debug, Clone, Copy, PartialEq, Eq, Structural)]
pub enum CountError {
    InvalidDecimal,
    OutOfRange,
}

pub open spec fn is_digit(b: u8) -> bool {
    48 <= b <= 57
}

pub open spec fn digits_value(s: Seq<u8>) -> int
    decreases s.len(),
{
    if s.len() == 0 {
        0
    } else {
        digits_value(s.drop_last()) * 10 + (s.last() - 48)
    }
}

pub proof fn lemma_digits_nonnegative(s: Seq<u8>)
    requires
        forall|i: int| 0 <= i < s.len() ==> is_digit(#[trigger] s[i]),
    ensures
        digits_value(s) >= 0,
    decreases s.len(),
{
    if s.len() > 0 {
        assert(s[s.len() - 1] == s.last());
        lemma_digits_nonnegative(s.drop_last());
    }
}

pub open spec fn pow10(n: nat) -> int
    decreases n,
{
    if n == 0 {
        1
    } else {
        10 * pow10((n - 1) as nat)
    }
}

/// Shape accepted for a count: 1 to 19 ASCII digits without a leading zero.
pub open spec fn decimal_shape(s: Seq<u8>) -> bool {
    &&& 1 <= s.len() <= 19
    &&& !(s.len() > 1 && s[0] == 48)
    &&& forall|i: int| 0 <= i < s.len() ==> is_digit(#[trigger] s[i])
}

pub open spec fn decoded_count(s: Seq<u8>) -> Result<u64, CountError> {
    if !decimal_shape(s) {
        Err(CountError::InvalidDecimal)
    } else if digits_value(s) > i64::MAX {
        Err(CountError::OutOfRange)
    } else {
        Ok(digits_value(s) as u64)
    }
}

proof fn lemma_pow10_monotone(a: nat, b: nat)
    requires
        a <= b,
    ensures
        1 <= pow10(a) <= pow10(b),
    decreases b,
{
    if b == 0 {
    } else if a < b {
        lemma_pow10_monotone(a, (b - 1) as nat);
    } else {
        lemma_pow10_monotone(0, (b - 1) as nat);
    }
}

/// Parses the wire form of a count.
pub fn decode_count(value: &str) -> (count: Result<u64, CountError>)
    ensures
        count == decoded_count(value.spec_bytes()),
{
    let bytes = value.as_bytes();
    let n = bytes.len();
    if n == 0 || n > 19 || (n > 1 && bytes[0] == 48) {
        return Err(CountError::InvalidDecimal);
    }
    let mut v: u128 = 0;
    let mut i: usize = 0;
    while i < n
        invariant
            n == bytes@.len(),
            bytes@ == value.spec_bytes(),
            1 <= n <= 19,
            i <= n,
            forall|j: int| 0 <= j < i ==> is_digit(#[trigger] bytes@[j]),
            v as int == digits_value(bytes@.take(i as int)),
            v < pow10(i as nat),
        decreases n - i,
    {
        let b = bytes[i];
        if b < 48 || b > 57 {
            assert(!is_digit(bytes@[i as int]));
            assert(!decimal_shape(bytes@));
            return Err(CountError::InvalidDecimal);
        }
        let d = (b - 48) as u128;
        proof {
            lemma_pow10_monotone(i as nat, 18);
            reveal_with_fuel(pow10, 19);
            assert(pow10(18) == 1000000000000000000);
            assert(bytes@.take(i as int + 1).drop_last() =~= bytes@.take(i as int));
            let p = pow10(i as nat);
            assert(v * 10 + d < 10 * p) by (nonlinear_arith)
                requires
                    v < p,
                    d <= 9,
            ;
        }
        v = v * 10 + d;
        i = i + 1;
    }
    assert(bytes@.take(n as int) =~= bytes@);
    if v > i64::MAX as u128 {
        return Err(CountError::OutOfRange);
    }
    Ok(v as u64)
}

pub open spec fn decimal_digits(n: nat) -> Seq<u8>
    decreases n,
{
    if n < 10 {
        seq![(n + 48) as u8]
    } else {
        decimal_digits(n / 10).push((n % 10 + 48) as u8)
    }
}

/// ASCII decimal digits of a count, most significant first.
pub fn decimal_text(value: u64) -> (text: Vec<u8>)
    ensures
        text@ == decimal_digits(value as nat),
    decreases value,
{
    if value < 10 {
        let mut t = Vec::new();
        t.push((value + 48) as u8);
        t
    } else {
        let mut t = decimal_text(value / 10);
        t.push((value % 10 + 48) as u8);
        t
    }
}

/// Encodes a count in its wire form.
pub fn encode_count(value: u64) -> (text: Result<Vec<u8>, CountError>)
    ensures
        value <= i64::MAX ==> text == Ok::<Vec<u8>, CountError>(text->Ok_0) && text->Ok_0@
            == decimal_digits(value as nat),
        value > i64::MAX ==> text == Err::<Vec<u8>, CountError>(CountError::OutOfRange),
{
    if value > i64::MAX as u64 {
        return Err(CountError::OutOfRange);
    }
    Ok(decimal_text(value))
}

proof fn lemma_decimal_digits_shape(n: nat)
    ensures
        digits_value(decimal_digits(n)) == n,
        forall|i: int|
            0 <= i < decimal_digits(n).len() ==> is_digit(#[trigger] decimal_digits(n)[i]),
        decimal_digits(n).len() >= 1,
        decimal_digits(n).len() > 1 ==> decimal_digits(n)[0] != 48,
        n < pow10(decimal_digits(n).len()),
        decimal_digits(n).len() > 1 ==> pow10((decimal_digits(n).len() - 1) as nat) <= n,
    decreases n,
{
    reveal_with_fuel(pow10, 2);
    if n < 10 {
        assert(decimal_digits(n).drop_last() =~= Seq::<u8>::empty());
        assert(digits_value(Seq::<u8>::empty()) == 0);
        assert(((n + 48) as u8) as int == n + 48);
        assert(decimal_digits(n).last() == (n + 48) as u8);
    } else {
        let q = n / 10;
        lemma_decimal_digits_shape(q);
        let d = decimal_digits(q);
        assert(decimal_digits(n).drop_last() =~= d);
        assert(((n % 10 + 48) as u8) as int == n % 10 + 48);
        assert(decimal_digits(n).last() == (n % 10 + 48) as u8);
        assert(digits_value(decimal_digits(n)) == q * 10 + n % 10);
        assert(decimal_digits(n)[0] == d[0]);
        let len = d.len();
        assert(q < pow10(len));
        assert(n < pow10(len + 1)) by (nonlinear_arith)
            requires
                q < pow10(len),
                q == n / 10,
                pow10(len + 1) == 10 * pow10(len),
        ;
        if len > 1 {
            assert(pow10(len) <= n) by (nonlinear_arith)
                requires
                    pow10((len - 1) as nat) <= q,
                    q == n / 10,
                    pow10(len) == 10 * pow10((len - 1) as nat),
            ;
        } else {
            reveal_with_fuel(pow10, 2);
        }
        assert(q != 0);
    }
}

/// A count's wire form decodes back to the same count: the decimal text that
/// `encode_count` writes for any count up to `i64::MAX` (larger counts it
/// refuses) is read by `decode_count` as that count.
pub proof fn law_count_wire_round_trip(value: u64)
    requires
        value <= i64::MAX,
    ensures
        decoded_count(decimal_digits(value as nat)) == Ok::<u64, CountError>(value),
{
    lemma_decimal_digits_shape(value as nat);
    let len = decimal_digits(value as nat).len();
    if len > 19 {
        lemma_pow10_monotone(19, (len - 1) as nat);
        reveal_with_fuel(pow10, 20);
        assert(pow10(19) == 10000000000000000000);
    }
}

} // verus!
