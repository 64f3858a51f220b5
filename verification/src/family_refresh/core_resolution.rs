//! Reconciliation of the complete shared core index before one authenticated
//! representation is chosen: no occurrence and no Person conflict may be hidden.
use crate::core_change_worker::all_digits;
use crate::error::MigrationError;
use crate::snapshot_source::Stream;
use super::model::{is_digit, Family, Hold};
use vstd::prelude::*;
use vstd::string::StringSliceAdditionalSpecFns;

verus! {

#[derive(Debug, Clone, Copy, PartialEq, Eq, Structural)]
pub enum Kind {
    Person,
    Field,
    User,
    Note,
    Task,
}

pub open spec fn core_kind_name(kind: Kind) -> Seq<char> {
    match kind {
        Kind::Person => "person"@,
        Kind::Field => "field"@,
        Kind::User => "user"@,
        Kind::Note => "note"@,
        Kind::Task => "task"@,
    }
}

pub open spec fn core_kind_stream(kind: Kind) -> Stream {
    match kind {
        Kind::Person => Stream::People,
        Kind::Field => Stream::CustomFields,
        Kind::User => Stream::Users,
        Kind::Note => Stream::NoteDetail,
        Kind::Task => Stream::TasksOpen,
    }
}

impl Kind {
    pub fn name(self) -> (name: &'static str)
        ensures
            name@ == core_kind_name(self),
    {
        match self {
            Kind::Person => "person",
            Kind::Field => "field",
            Kind::User => "user",
            Kind::Note => "note",
            Kind::Task => "task",
        }
    }

    /// Notes resolve from their detail stream, tasks from the open-task stream.
    pub fn stream(self) -> (stream: Stream)
        ensures
            stream == core_kind_stream(self),
    {
        match self {
            Kind::Person => Stream::People,
            Kind::Field => Stream::CustomFields,
            Kind::User => Stream::Users,
            Kind::Note => Stream::NoteDetail,
            Kind::Task => Stream::TasksOpen,
        }
    }
}

/// A source identifier as the index stores it: 1 to 128 ASCII digits without
/// a leading zero.
pub open spec fn valid_source_id(id: Seq<u8>) -> bool {
    &&& 0 < id.len() <= 128
    &&& id[0] != 48
    &&& all_digits(id)
}

pub fn source_id_valid(source_id: &str) -> (valid: bool)
    ensures
        valid == valid_source_id(source_id.spec_bytes()),
{
    let b = source_id.as_bytes();
    if b.len() == 0 || b.len() > 128 || b[0] == 48 {
        return false;
    }
    let mut i: usize = 0;
    while i < b.len()
        invariant
            i <= b@.len(),
            b@ == source_id.spec_bytes(),
            0 < b@.len() <= 128,
            b@[0] != 48,
            forall|j: int| 0 <= j < i ==> is_digit(#[trigger] b@[j]),
        decreases b.len() - i,
    {
        if b[i] < 48 || b[i] > 57 {
            assert(!is_digit(b@[i as int]));
            return false;
        }
        i = i + 1;
    }
    true
}

/// The plan's family and phase let it resolve records of `kind`.
pub open spec fn resolution_allowed(family: Seq<char>, phase: Seq<char>, kind: Kind) -> bool {
    &&& (phase == "mappings"@ || phase == "classify"@)
    &&& ((family == "metadata"@ && (kind == Kind::Person || kind == Kind::Field)) || (family
        == "activity"@ && (kind == Kind::User || kind == Kind::Note || kind == Kind::Task)))
}

fn is_word(s: &str, word: &str) -> (same: bool)
    ensures
        same == (s@ == word@),
{
    s.to_owned() == word.to_owned()
}

pub fn allows_resolution(family: &str, phase: &str, kind: Kind) -> (allowed: bool)
    ensures
        allowed == resolution_allowed(family@, phase@, kind),
{
    let phase_ok = is_word(phase, "mappings") || is_word(phase, "classify");
    let metadata = is_word(family, "metadata") && (kind == Kind::Person || kind == Kind::Field);
    let activity = is_word(family, "activity") && (kind == Kind::User || kind == Kind::Note || kind
        == Kind::Task);
    phase_ok && (metadata || activity)
}

/// The family under which the paying plan sealed the shared core rows: the
/// plan must still hold them, for the bundle's core snapshot.
pub open spec fn payer_family_result(
    phase: Seq<char>,
    family: Seq<char>,
    payer_snapshot: Option<u128>,
    core_snapshot: Option<u128>,
) -> Result<Family, MigrationError> {
    if !(phase == "mappings"@ || phase == "classify"@ || phase == "apply"@ || phase
        == "finished"@) || payer_snapshot != core_snapshot {
        Err(MigrationError::Conflict)
    } else if family == "metadata"@ {
        Ok(Family::Metadata)
    } else if family == "activity"@ {
        Ok(Family::Activity)
    } else {
        Err(MigrationError::Conflict)
    }
}

pub fn payer_family(
    phase: &str,
    family: &str,
    payer_snapshot: Option<u128>,
    core_snapshot: Option<u128>,
) -> (r: Result<Family, MigrationError>)
    ensures
        r == payer_family_result(phase@, family@, payer_snapshot, core_snapshot),
{
    let live = is_word(phase, "mappings") || is_word(phase, "classify") || is_word(phase, "apply")
        || is_word(phase, "finished");
    let same_snapshot = match (payer_snapshot, core_snapshot) {
        (Some(a), Some(b)) => a == b,
        (None, None) => true,
        _ => false,
    };
    if !live || !same_snapshot {
        Err(MigrationError::Conflict)
    } else if is_word(family, "metadata") {
        Ok(Family::Metadata)
    } else if is_word(family, "activity") {
        Ok(Family::Activity)
    } else {
        Err(MigrationError::Conflict)
    }
}

/// The index rows of one representation of one source record.
#[derive(Debug, Clone)]
pub struct Group {
    /// The stream the representation belongs to; `None` for one no stream has.
    pub representation: Option<Stream>,
    pub observations: i64,
    /// Distinct semantic digests.
    pub variants: i64,
    /// Distinct linked people, a missing link counting as one.
    pub people: i64,
    /// The linked person, if any.
    pub person: Option<String>,
    pub qualified: bool,
    pub oversized: Option<bool>,
    /// Distinct capture streams the rows came from.
    pub streams: i64,
}

/// What the reconciliation of all groups decided.
#[derive(Debug, Clone)]
pub enum Reconciled {
    Held(Hold),
    Selected { observations: i64, person: Option<String> },
}

pub enum ReconciledView {
    Held(Hold),
    Selected { observations: int, person: Option<Seq<char>> },
}

pub open spec fn opt_chars(s: Option<String>) -> Option<Seq<char>> {
    match s {
        Some(v) => Some(v@),
        None => None,
    }
}

impl Reconciled {
    pub open spec fn view(self) -> ReconciledView {
        match self {
            Reconciled::Held(h) => ReconciledView::Held(h),
            Reconciled::Selected { observations, person } => ReconciledView::Selected {
                observations: observations as int,
                person: opt_chars(person),
            },
        }
    }
}

/// Progress of the scan over the groups, in the order they are listed.
pub struct Scan {
    pub person: Option<Seq<char>>,
    pub seen: bool,
    pub count: int,
    pub desired: bool,
}

pub open spec fn empty_scan() -> Scan {
    Scan { person: None, seen: false, count: 0, desired: false }
}

/// The representation may stand for records of `kind`: its own stream, or the
/// note list for a note.
pub open spec fn representation_fits(kind: Kind, representation: Option<Stream>) -> bool {
    representation == Some(core_kind_stream(kind)) || (kind == Kind::Note && representation == Some(
        Stream::Notes,
    ))
}

/// The hold that one group forces, given the groups before it.
pub open spec fn group_hold(kind: Kind, g: Group, scan: Scan) -> Option<Hold> {
    if !representation_fits(kind, g.representation) {
        Some(Hold::UnsupportedSource)
    } else if g.variants != 1 || g.people != 1 || (kind == Kind::Task && g.streams > 1) {
        Some(Hold::SourceConflict)
    } else if !g.qualified {
        Some(
            if g.oversized == Some(true) {
                Hold::UnitTooLarge
            } else {
                Hold::UnsupportedSource
            },
        )
    } else if scan.seen && opt_chars(g.person) != scan.person {
        Some(Hold::SourceConflict)
    } else {
        None
    }
}

pub open spec fn scan_step(kind: Kind, g: Group, scan: Scan) -> Scan {
    Scan {
        person: opt_chars(g.person),
        seen: true,
        count: scan.count + g.observations,
        desired: scan.desired || g.representation == Some(core_kind_stream(kind)),
    }
}

pub open spec fn fits_i64(x: int) -> bool {
    i64::MIN <= x <= i64::MAX
}

/// Scanning `groups` from `scan`: a hold, an overflowing count, or the final scan.
pub open spec fn scan_groups(kind: Kind, groups: Seq<Group>, scan: Scan) -> Result<
    Result<Scan, Hold>,
    MigrationError,
>
    decreases groups.len(),
{
    if groups.len() == 0 {
        Ok(Ok(scan))
    } else {
        match group_hold(kind, groups[0], scan) {
            Some(h) => Ok(Err(h)),
            None => {
                let next = scan_step(kind, groups[0], scan);
                if !fits_i64(next.count) {
                    Err(MigrationError::StorageLimit)
                } else {
                    scan_groups(kind, groups.drop_first(), next)
                }
            },
        }
    }
}

/// The reconciliation of every representation group of one source record.
pub open spec fn reconcile_result(kind: Kind, groups: Seq<Group>) -> Result<
    ReconciledView,
    MigrationError,
> {
    if groups.len() == 0 {
        Ok(ReconciledView::Held(Hold::SourceNotObserved))
    } else {
        match scan_groups(kind, groups, empty_scan()) {
            Err(e) => Err(e),
            Ok(Err(h)) => Ok(ReconciledView::Held(h)),
            Ok(Ok(scan)) => if !scan.desired {
                Ok(ReconciledView::Held(Hold::SourceUnavailable))
            } else if (kind == Kind::Person || kind == Kind::Note || kind == Kind::Task)
                && scan.person is None {
                Ok(ReconciledView::Held(Hold::UnsupportedSource))
            } else {
                Ok(ReconciledView::Selected { observations: scan.count, person: scan.person })
            },
        }
    }
}

/// A representation group that may take part in a selection on its own.
pub open spec fn group_admitted(kind: Kind, g: Group) -> bool {
    &&& representation_fits(kind, g.representation)
    &&& g.variants == 1
    &&& g.people == 1
    &&& !(kind == Kind::Task && g.streams > 1)
    &&& g.qualified
}

pub open spec fn total_observations(groups: Seq<Group>) -> int
    decreases groups.len(),
{
    if groups.len() == 0 {
        0
    } else {
        groups[0].observations + total_observations(groups.drop_first())
    }
}

proof fn lemma_scan_accepts(kind: Kind, groups: Seq<Group>, scan: Scan, fin: Scan)
    requires
        groups.len() > 0,
        scan_groups(kind, groups, scan) == Ok::<Result<Scan, Hold>, MigrationError>(Ok(fin)),
    ensures
        forall|i: int|
            0 <= i < groups.len() ==> group_admitted(kind, #[trigger] groups[i]) && opt_chars(
                groups[i].person,
            ) == fin.person,
        fin.count == scan.count + total_observations(groups),
        fin.seen,
        scan.seen ==> scan.person == fin.person,
    decreases groups.len(),
{
    let next = scan_step(kind, groups[0], scan);
    let rest = groups.drop_first();
    if rest.len() == 0 {
        assert(total_observations(rest) == 0);
    } else {
        lemma_scan_accepts(kind, rest, next, fin);
        assert forall|i: int| 0 <= i < groups.len() implies group_admitted(
            kind,
            #[trigger] groups[i],
        ) && opt_chars(groups[i].person) == fin.person by {
            if i > 0 {
                assert(groups[i] == rest[i - 1]);
            }
        }
    }
}

/// A record is selected only when every representation group of it was
/// admitted and links the same person, and the selection counts every
/// observation of every group.
pub proof fn law_selection_accounts_for_every_group(kind: Kind, groups: Seq<Group>)
    requires
        reconcile_result(kind, groups) is Ok,
        reconcile_result(kind, groups)->Ok_0 is Selected,
    ensures
        match reconcile_result(kind, groups) {
            Ok(ReconciledView::Selected { observations, person }) => {
                &&& observations == total_observations(groups)
                &&& forall|i: int|
                    0 <= i < groups.len() ==> group_admitted(kind, #[trigger] groups[i])
                        && opt_chars(groups[i].person) == person
            },
            _ => true,
        },
{
    match scan_groups(kind, groups, empty_scan()) {
        Ok(Ok(fin)) => lemma_scan_accepts(kind, groups, empty_scan(), fin),
        _ => {},
    }
}

fn same_person(a: &Option<String>, b: &Option<String>) -> (same: bool)
    ensures
        same == (opt_chars(*a) == opt_chars(*b)),
{
    match (a, b) {
        (Some(x), Some(y)) => *x == *y,
        (None, None) => true,
        _ => false,
    }
}

fn same_stream(a: Option<Stream>, b: Stream) -> (same: bool)
    ensures
        same == (a == Some(b)),
{
    match a {
        Some(x) => x == b,
        None => false,
    }
}

/// Reconciles the representation groups of one source record, in the order the
/// index lists them: any conflict, disqualification or foreign representation
/// holds the record; otherwise the total observations and the linked person.
pub fn reconcile(kind: Kind, groups: &Vec<Group>) -> (r: Result<Reconciled, MigrationError>)
    ensures
        match r {
            Ok(x) => reconcile_result(kind, groups@) == Ok::<ReconciledView, MigrationError>(
                x.view(),
            ),
            Err(e) => reconcile_result(kind, groups@) == Err::<ReconciledView, MigrationError>(e),
        },
{
    if groups.len() == 0 {
        return Ok(Reconciled::Held(Hold::SourceNotObserved));
    }
    let own = kind.stream();
    let mut person: Option<String> = None;
    let mut seen = false;
    let mut count: i64 = 0;
    let mut desired = false;
    let mut i: usize = 0;
    assert(groups@.skip(0) =~= groups@);
    while i < groups.len()
        invariant
            i <= groups@.len(),
            own == core_kind_stream(kind),
            scan_groups(kind, groups@, empty_scan()) == scan_groups(
                kind,
                groups@.skip(i as int),
                Scan { person: opt_chars(person), seen, count: count as int, desired },
            ),
        decreases groups.len() - i,
    {
        let g = &groups[i];
        let ghost scan = Scan { person: opt_chars(person), seen, count: count as int, desired };
        assert(groups@.skip(i as int)[0] == groups@[i as int]);
        assert(groups@.skip(i as int).drop_first() =~= groups@.skip(i + 1));
        let fits = same_stream(g.representation, own) || (kind == Kind::Note && same_stream(
            g.representation,
            Stream::Notes,
        ));
        if !fits {
            return Ok(Reconciled::Held(Hold::UnsupportedSource));
        }
        if g.variants != 1 || g.people != 1 || (kind == Kind::Task && g.streams > 1) {
            return Ok(Reconciled::Held(Hold::SourceConflict));
        }
        if !g.qualified {
            let oversized = match g.oversized {
                Some(b) => b,
                None => false,
            };
            return Ok(
                Reconciled::Held(
                    if oversized {
                        Hold::UnitTooLarge
                    } else {
                        Hold::UnsupportedSource
                    },
                ),
            );
        }
        if seen && !same_person(&g.person, &person) {
            return Ok(Reconciled::Held(Hold::SourceConflict));
        }
        person = g.person.clone();
        seen = true;
        desired = desired || same_stream(g.representation, own);
        count = match count.checked_add(g.observations) {
            Some(c) => c,
            None => return Err(MigrationError::StorageLimit),
        };
        i = i + 1;
    }
    assert(groups@.skip(i as int).len() == 0);
    if !desired {
        return Ok(Reconciled::Held(Hold::SourceUnavailable));
    }
    if (kind == Kind::Person || kind == Kind::Note || kind == Kind::Task) && person.is_none() {
        return Ok(Reconciled::Held(Hold::UnsupportedSource));
    }
    Ok(Reconciled::Selected { observations: count, person })
}

} // verus!
