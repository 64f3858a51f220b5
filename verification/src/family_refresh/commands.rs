//! Family refresh preparation command: the requested family set must be
//! non-empty, free of repeats and consistent with the supplied source inputs.
use super::activity_delta::{earlier, is_earlier, Instant};
use super::model::{new_id, Family};
use crate::error::MigrationError;
use vstd::prelude::*;

verus! {

pub struct PrepareFamilyRefresh {
    pub request_id: u128,
    pub parent_import_id: u128,
    pub core_report_id: Option<u128>,
    pub history_capture_id: Option<u128>,
    pub families: Vec<Family>,
}

/// A valid request names each family once, names history exactly when a
/// history capture is supplied, and names a core family exactly when a core
/// report is supplied.
pub open spec fn families_valid(families: Seq<Family>, core: bool, history: bool) -> bool {
    &&& families.len() > 0
    &&& families.no_duplicates()
    &&& families.contains(Family::History) == history
    &&& (families.contains(Family::Metadata) || families.contains(Family::Activity)) == core
}

/// Family set in canonical order: metadata, activity, history.
pub open spec fn ordered_families(families: Seq<Family>) -> Seq<Family> {
    let m = if families.contains(Family::Metadata) {
        seq![Family::Metadata]
    } else {
        Seq::empty()
    };
    let a = if families.contains(Family::Activity) {
        seq![Family::Activity]
    } else {
        Seq::empty()
    };
    let h = if families.contains(Family::History) {
        seq![Family::History]
    } else {
        Seq::empty()
    };
    m + a + h
}

impl PrepareFamilyRefresh {
    pub fn families(&self) -> (families: Result<Vec<Family>, MigrationError>)
        ensures
            families is Ok <==> families_valid(
                self.families@,
                self.core_report_id is Some,
                self.history_capture_id is Some,
            ),
            families matches Ok(f) ==> f@ == ordered_families(self.families@),
            families matches Err(e) ==> e == MigrationError::InvalidInput,
    {
        let mut metadata = false;
        let mut activity = false;
        let mut history = false;
        let mut i: usize = 0;
        while i < self.families.len()
            invariant
                i <= self.families@.len(),
                self.families@.take(i as int).no_duplicates(),
                metadata == self.families@.take(i as int).contains(Family::Metadata),
                activity == self.families@.take(i as int).contains(Family::Activity),
                history == self.families@.take(i as int).contains(Family::History),
            decreases self.families@.len() - i,
        {
            let f = self.families[i];
            let ghost prefix = self.families@.take(i as int);
            let ghost next = self.families@.take(i as int + 1);
            assert(next =~= prefix.push(f));
            let seen = match f {
                Family::Metadata => metadata,
                Family::Activity => activity,
                Family::History => history,
            };
            if seen {
                assert(prefix.contains(f));
                let ghost k = choose|k: int| 0 <= k < prefix.len() && prefix[k] == f;
                assert(self.families@[k] == self.families@[i as int]);
                assert(!self.families@.no_duplicates());
                return Err(MigrationError::InvalidInput);
            }
            match f {
                Family::Metadata => metadata = true,
                Family::Activity => activity = true,
                Family::History => history = true,
            }
            assert(next[i as int] == f);
            assert(next.contains(f));
            assert forall|x: Family| x != f implies (next.contains(x) == prefix.contains(x)) by {
                if next.contains(x) {
                    let k = choose|k: int| 0 <= k < next.len() && next[k] == x;
                    assert(prefix[k] == x);
                }
                if prefix.contains(x) {
                    let k = choose|k: int| 0 <= k < prefix.len() && prefix[k] == x;
                    assert(next[k] == x);
                }
            }
            i = i + 1;
        }
        assert(self.families@.take(i as int) =~= self.families@);
        if i == 0 || history != self.history_capture_id.is_some() || (metadata || activity)
            != self.core_report_id.is_some() {
            return Err(MigrationError::InvalidInput);
        }
        let mut out = Vec::new();
        if metadata {
            out.push(Family::Metadata);
        }
        if activity {
            out.push(Family::Activity);
        }
        if history {
            out.push(Family::History);
        }
        assert(out@ =~= ordered_families(self.families@));
        Ok(out)
    }
}

/// The payer plan of a bundle pays for shared core work: in canonical order
/// it is a core family whenever the request names one.
pub proof fn law_payer_is_a_core_family_when_one_is_requested(families: Seq<Family>)
    requires
        families.contains(Family::Metadata) || families.contains(Family::Activity),
    ensures
        ordered_families(families).len() > 0,
        ordered_families(families)[0] != Family::History,
{
}

/// One plan of a prepared bundle.
#[derive(Debug, Clone, Copy, PartialEq, Eq, Structural)]
pub struct PreparedPlan {
    pub family: Family,
    pub plan_id: u128,
    pub revision: i64,
}

/// A prepared bundle as reported back.
#[derive(Debug, Clone)]
pub struct PreparedBundle {
    pub bundle_id: u128,
    pub revision: i64,
    pub state: String,
    pub families: Vec<PreparedPlan>,
}

/// One new plan per family, in order, each at revision 1 under `ids[i]`.
pub fn plans_with(families: &Vec<Family>, ids: &Vec<u128>) -> (plans: Vec<PreparedPlan>)
    requires
        ids@.len() == families@.len(),
    ensures
        plans@.len() == families@.len(),
        forall|i: int|
            0 <= i < families@.len() ==> #[trigger] plans@[i] == (PreparedPlan {
                family: families@[i],
                plan_id: ids@[i],
                revision: 1,
            }),
{
    let mut plans: Vec<PreparedPlan> = Vec::new();
    let mut i: usize = 0;
    while i < families.len()
        invariant
            i <= families@.len(),
            ids@.len() == families@.len(),
            plans@.len() == i,
            forall|j: int|
                0 <= j < i ==> #[trigger] plans@[j] == (PreparedPlan {
                    family: families@[j],
                    plan_id: ids@[j],
                    revision: 1,
                }),
        decreases families.len() - i,
    {
        plans.push(PreparedPlan { family: families[i], plan_id: ids[i], revision: 1 });
        i = i + 1;
    }
    plans
}

/// One new plan per family, each under a fresh random identifier.
pub fn new_plans(families: &Vec<Family>) -> (plans: Vec<PreparedPlan>)
    ensures
        plans@.len() == families@.len(),
        forall|i: int|
            0 <= i < families@.len() ==> (#[trigger] plans@[i]).family == families@[i]
                && plans@[i].revision == 1,
{
    let mut ids: Vec<u128> = Vec::new();
    let mut i: usize = 0;
    while i < families.len()
        invariant
            i <= families@.len(),
            ids@.len() == i,
        decreases families.len() - i,
    {
        ids.push(new_id());
        i = i + 1;
    }
    plans_with(families, &ids)
}

/// What a completed core change report says of its source.
#[derive(Debug, Clone, Copy)]
pub struct CoreReportFacts {
    pub parent_import_id: u128,
    pub parent_plan_id: u128,
    pub source_account_id: i64,
    /// Both captures saw one consistent identity scope.
    pub consistent_identity: bool,
    /// When the newer capture completed.
    pub newer_completed: Instant,
}

/// The report was made for this parent import, its confirmed plan and account.
pub fn report_belongs(
    parent_import: u128,
    parent_plan: u128,
    account: i64,
    report_parent_import: u128,
    report_parent_plan: u128,
    report_account: i64,
) -> (belongs: bool)
    ensures
        belongs == (report_parent_import == parent_import && report_parent_plan == parent_plan
            && report_account == account),
{
    report_parent_import == parent_import && report_parent_plan == parent_plan && report_account
        == account
}

/// A core report may feed the bundle: same parent import, plan and account,
/// a consistent identity scope, and a newer capture already completed.
pub open spec fn core_report_result(
    parent_import: u128,
    parent_plan: u128,
    account: i64,
    now: Instant,
    report: CoreReportFacts,
) -> Result<Instant, MigrationError> {
    if report.parent_import_id != parent_import || report.parent_plan_id != parent_plan
        || report.source_account_id != account || !report.consistent_identity || earlier(
        now,
        report.newer_completed,
    ) {
        Err(MigrationError::SourceNotEligible)
    } else {
        Ok(report.newer_completed)
    }
}

pub fn core_report_eligible(
    parent_import: u128,
    parent_plan: u128,
    account: i64,
    now: Instant,
    report: &CoreReportFacts,
) -> (r: Result<Instant, MigrationError>)
    ensures
        r == core_report_result(parent_import, parent_plan, account, now, *report),
{
    if report.parent_import_id != parent_import || report.parent_plan_id != parent_plan
        || report.source_account_id != account || !report.consistent_identity || is_earlier(
        now,
        report.newer_completed,
    ) {
        Err(MigrationError::SourceNotEligible)
    } else {
        Ok(report.newer_completed)
    }
}

/// What a history capture run says of itself.
#[derive(Debug, Clone)]
pub struct CaptureFacts {
    /// The run used the current capture profile.
    pub current_profile: bool,
    pub state: String,
    pub parent_import_id: u128,
    pub parent_plan_id: u128,
    pub source_account_id: i64,
    pub parent_source_user_id: Option<i64>,
    pub source_user_id: i64,
    pub started: Option<Instant>,
    pub completed: Option<Instant>,
}

/// A history capture may feed the bundle: a finished run of the current
/// profile for the same parent, account and user, completed by now, and
/// started after any core capture ended.
pub open spec fn capture_result(
    parent_import: u128,
    parent_plan: u128,
    account: i64,
    now: Instant,
    core_end: Option<Instant>,
    capture: CaptureFacts,
) -> Result<(Instant, Instant), MigrationError> {
    match (capture.started, capture.completed) {
        (Some(started), Some(completed)) => if !capture.current_profile || capture.state@
            != "completed_with_gaps"@ || capture.parent_import_id != parent_import
            || capture.parent_plan_id != parent_plan || capture.source_account_id != account
            || capture.parent_source_user_id != Some(capture.source_user_id) || earlier(
            now,
            completed,
        ) || earlier(completed, started) || (core_end matches Some(end) && !earlier(end, started)) {
            Err(MigrationError::SourceNotEligible)
        } else {
            Ok((started, completed))
        },
        _ => Err(MigrationError::SourceNotEligible),
    }
}

fn is_word(s: &String, word: &str) -> (same: bool)
    ensures
        same == (s@ == word@),
{
    *s == word.to_owned()
}

pub fn capture_eligible(
    parent_import: u128,
    parent_plan: u128,
    account: i64,
    now: Instant,
    core_end: Option<Instant>,
    capture: &CaptureFacts,
) -> (r: Result<(Instant, Instant), MigrationError>)
    ensures
        r == capture_result(parent_import, parent_plan, account, now, core_end, *capture),
{
    let (started, completed) = match (capture.started, capture.completed) {
        (Some(s), Some(c)) => (s, c),
        _ => return Err(MigrationError::SourceNotEligible),
    };
    let same_user = match capture.parent_source_user_id {
        Some(u) => u == capture.source_user_id,
        None => false,
    };
    let after_core = match core_end {
        Some(end) => is_earlier(end, started),
        None => true,
    };
    if !capture.current_profile || !is_word(&capture.state, "completed_with_gaps")
        || capture.parent_import_id != parent_import || capture.parent_plan_id != parent_plan
        || capture.source_account_id != account || !same_user || is_earlier(now, completed)
        || is_earlier(completed, started) || !after_core {
        Err(MigrationError::SourceNotEligible)
    } else {
        Ok((started, completed))
    }
}

/// Storage reserved for a new plan's control settlement: what it still owes
/// plus a fixed margin.
pub fn control_amount(pending: i64) -> (r: Result<i64, MigrationError>)
    ensures
        pending + 8192 <= i64::MAX ==> r == Ok::<i64, MigrationError>((pending + 8192) as i64),
        pending + 8192 > i64::MAX ==> r == Err::<i64, MigrationError>(MigrationError::StorageLimit),
{
    match pending.checked_add(8192) {
        Some(a) => Ok(a),
        None => Err(MigrationError::StorageLimit),
    }
}

} // verus!
