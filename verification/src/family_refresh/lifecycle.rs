//! Scoped control commands. Cancelling asks each selected family's plan to stop;
//! no control command executes native units.
use super::confirmation::{canonical_revision, revision};
use super::model::{digits_value, Family};
use crate::error::MigrationError;
use vstd::prelude::*;

verus! {

/// A control command on some families of one bundle.
#[derive(Debug, Clone)]
pub struct FamilyControl {
    pub request_id: u128,
    pub expected_revision: String,
    pub families: Vec<Family>,
}

/// A family plan of the bundle as it stands when the command is applied.
#[derive(Debug, Clone)]
pub struct PlanRow {
    pub id: u128,
    pub family: Family,
    pub state: String,
    pub phase: String,
    pub cancel_requested: bool,
    pub revision: i64,
}

/// The cancellation request recorded on one selected plan. A shared plan keeps
/// its state: it still owes shared work to surviving siblings.
#[derive(Debug, Clone, Copy, PartialEq, Eq, Structural)]
pub struct PlanCancel {
    pub plan: u128,
    pub family: Family,
    pub revision: i64,
    pub shared: bool,
}

/// What a cancellation does to the bundle.
#[derive(Debug, Clone)]
pub struct CancelDecision {
    pub cancels: Vec<PlanCancel>,
    pub next_revision: i64,
    pub survives: bool,
    pub state: String,
}

/// The command's expected revision, if it is canonical and the family
/// selection is non-empty and free of repeats.
pub open spec fn request_result(cmd: FamilyControl) -> Result<i64, MigrationError> {
    if canonical_revision(spec_bytes_of_chars(cmd.expected_revision@)) && cmd.families@.len() > 0
        && cmd.families@.no_duplicates() {
        Ok(digits_value(spec_bytes_of_chars(cmd.expected_revision@)) as i64)
    } else {
        Err(MigrationError::InvalidInput)
    }
}

pub open spec fn terminal(state: Seq<char>) -> bool {
    state == "cancelled"@ || state == "completed"@
}

/// Some plan outside the selection is still live.
pub open spec fn survivor(families: Seq<Family>, plans: Seq<PlanRow>) -> bool {
    exists|i: int|
        0 <= i < plans.len() && !families.contains(#[trigger] plans[i].family) && !terminal(
            plans[i].state@,
        )
}

/// The bundle has a plan for family `f`.
pub open spec fn planned(plans: Seq<PlanRow>, f: Family) -> bool {
    exists|i: int| 0 <= i < plans.len() && plans[i].family == f
}

/// Some selected family has no plan in the bundle.
pub open spec fn family_missing(families: Seq<Family>, plans: Seq<PlanRow>) -> bool {
    exists|j: int| 0 <= j < families.len() && !planned(plans, #[trigger] families[j])
}

/// Some selected plan already ended or already has a cancellation request.
pub open spec fn blocked(families: Seq<Family>, plans: Seq<PlanRow>) -> bool {
    exists|i: int|
        0 <= i < plans.len() && families.contains(#[trigger] plans[i].family) && (terminal(
            plans[i].state@,
        ) || plans[i].cancel_requested)
}

pub open spec fn sharing_phase(phase: Seq<char>) -> bool {
    phase == "cohort"@ || phase == "capture"@
}

/// The cancellation requests, one per selected plan, in the plans' order.
pub open spec fn cancellations(
    families: Seq<Family>,
    plans: Seq<PlanRow>,
    survives: bool,
    payer: u128,
) -> Seq<PlanCancel>
    decreases plans.len(),
{
    if plans.len() == 0 {
        Seq::empty()
    } else {
        let earlier = cancellations(families, plans.drop_last(), survives, payer);
        let p = plans.last();
        if families.contains(p.family) {
            earlier.push(
                PlanCancel {
                    plan: p.id,
                    family: p.family,
                    revision: p.revision,
                    shared: survives && p.id == payer && sharing_phase(p.phase@),
                },
            )
        } else {
            earlier
        }
    }
}

pub struct CancelView {
    pub cancels: Seq<PlanCancel>,
    pub next_revision: int,
    pub survives: bool,
    pub state: Seq<char>,
}

impl CancelDecision {
    pub open spec fn view(self) -> CancelView {
        CancelView {
            cancels: self.cancels@,
            next_revision: self.next_revision as int,
            survives: self.survives,
            state: self.state@,
        }
    }
}

/// The cancellation of `families` from a bundle at `bundle_revision` in
/// `bundle_state` whose shared work is paid by plan `payer`.
pub open spec fn cancel_result(
    expected: i64,
    families: Seq<Family>,
    bundle_revision: i64,
    bundle_state: Seq<char>,
    payer: u128,
    plans: Seq<PlanRow>,
) -> Result<CancelView, MigrationError> {
    if bundle_revision != expected || terminal(bundle_state) {
        Err(MigrationError::Conflict)
    } else if family_missing(families, plans) {
        Err(MigrationError::NotFound)
    } else if blocked(families, plans) {
        Err(MigrationError::Conflict)
    } else if expected + 1 > i64::MAX {
        Err(MigrationError::Conflict)
    } else {
        let survives = survivor(families, plans);
        Ok(
            CancelView {
                cancels: cancellations(families, plans, survives, payer),
                next_revision: expected + 1,
                survives,
                state: if survives {
                    bundle_state
                } else {
                    "cancelled"@
                },
            },
        )
    }
}

pub open spec fn spec_bytes_of_chars(s: Seq<char>) -> Seq<u8> {
    vstd::utf8::encode_utf8(s)
}

proof fn lemma_cancellations_selected(
    families: Seq<Family>,
    plans: Seq<PlanRow>,
    survives: bool,
    payer: u128,
)
    ensures
        forall|k: int|
            0 <= k < cancellations(families, plans, survives, payer).len() ==> {
                let c = #[trigger] cancellations(families, plans, survives, payer)[k];
                &&& families.contains(c.family)
                &&& (c.shared ==> survives && c.plan == payer)
            },
    decreases plans.len(),
{
    if plans.len() > 0 {
        lemma_cancellations_selected(families, plans.drop_last(), survives, payer);
    }
}

proof fn lemma_cancellations_cover(
    families: Seq<Family>,
    plans: Seq<PlanRow>,
    survives: bool,
    payer: u128,
    i: int,
)
    requires
        0 <= i < plans.len(),
        families.contains(plans[i].family),
    ensures
        exists|k: int|
            0 <= k < cancellations(families, plans, survives, payer).len() && (
            #[trigger] cancellations(families, plans, survives, payer)[k]).plan == plans[i].id
                && cancellations(families, plans, survives, payer)[k].family == plans[i].family,
    decreases plans.len(),
{
    let earlier = cancellations(families, plans.drop_last(), survives, payer);
    let all = cancellations(families, plans, survives, payer);
    if i == plans.len() - 1 {
        assert(all[earlier.len() as int].plan == plans[i].id);
    } else {
        assert(plans.drop_last()[i] == plans[i]);
        lemma_cancellations_cover(families, plans.drop_last(), survives, payer, i);
        let k = choose|k: int|
            0 <= k < earlier.len() && (#[trigger] earlier[k]).plan == plans[i].id && earlier[k].family
                == plans[i].family;
        assert(all[k] == earlier[k]);
    }
}

/// A cancellation covers exactly the selection: each request is for a selected
/// family, every selected family gets a request on its plan, only the payer
/// with live siblings keeps running for them, and the bundle itself is
/// cancelled once nothing outside the selection is live.
pub proof fn law_cancel_covers_exactly_the_selection(
    expected: i64,
    families: Seq<Family>,
    bundle_revision: i64,
    bundle_state: Seq<char>,
    payer: u128,
    plans: Seq<PlanRow>,
)
    requires
        cancel_result(expected, families, bundle_revision, bundle_state, payer, plans) is Ok,
    ensures
        ({
            let d = cancel_result(expected, families, bundle_revision, bundle_state, payer, plans)->Ok_0;
            &&& forall|k: int|
                0 <= k < d.cancels.len() ==> families.contains((#[trigger] d.cancels[k]).family) && (
                d.cancels[k].shared ==> d.survives && d.cancels[k].plan == payer)
            &&& forall|j: int|
                #![trigger families[j]]
                0 <= j < families.len() ==> exists|k: int|
                    0 <= k < d.cancels.len() && (#[trigger] d.cancels[k]).family == families[j]
            &&& (!d.survives ==> d.state == "cancelled"@)
            &&& d.next_revision == expected + 1
        }),
{
    let survives = survivor(families, plans);
    let cancels = cancellations(families, plans, survives, payer);
    lemma_cancellations_selected(families, plans, survives, payer);
    assert forall|j: int| #![trigger families[j]] 0 <= j < families.len() implies exists|k: int|
        0 <= k < cancels.len() && (#[trigger] cancels[k]).family == families[j] by {
        assert(planned(plans, families[j]));
        let i = choose|i: int| 0 <= i < plans.len() && plans[i].family == families[j];
        assert(families.contains(plans[i].family));
        lemma_cancellations_cover(families, plans, survives, payer, i);
    }
}

fn is_word(s: &String, word: &str) -> (same: bool)
    ensures
        same == (s@ == word@),
{
    *s == word.to_owned()
}

fn is_terminal(state: &String) -> (t: bool)
    ensures
        t == terminal(state@),
{
    is_word(state, "cancelled") || is_word(state, "completed")
}

fn selects(families: &Vec<Family>, f: Family) -> (found: bool)
    ensures
        found == families@.contains(f),
{
    let mut i: usize = 0;
    while i < families.len()
        invariant
            i <= families@.len(),
            forall|j: int| 0 <= j < i ==> families@[j] != f,
        decreases families.len() - i,
    {
        if families[i] == f {
            assert(families@[i as int] == f);
            return true;
        }
        i = i + 1;
    }
    false
}

fn distinct(families: &Vec<Family>) -> (d: bool)
    ensures
        d == families@.no_duplicates(),
{
    let mut i: usize = 0;
    while i < families.len()
        invariant
            i <= families@.len(),
            forall|a: int, b: int| 0 <= a < b < i ==> families@[a] != families@[b],
        decreases families.len() - i,
    {
        let mut j: usize = 0;
        while j < i
            invariant
                i < families@.len(),
                j <= i,
                forall|a: int, b: int| 0 <= a < b < i ==> families@[a] != families@[b],
                forall|a: int| 0 <= a < j ==> families@[a] != families@[i as int],
            decreases i - j,
        {
            if families[j] == families[i] {
                return false;
            }
            j = j + 1;
        }
        i = i + 1;
    }
    true
}

impl FamilyControl {
    /// The expected revision of a well-formed control command.
    pub fn request(&self) -> (r: Result<i64, MigrationError>)
        ensures
            r == request_result(*self),
    {
        let expected = match revision(self.expected_revision.as_str()) {
            Ok(v) => v,
            Err(e) => return Err(e),
        };
        if self.families.len() == 0 || !distinct(&self.families) {
            return Err(MigrationError::InvalidInput);
        }
        Ok(expected)
    }
}

fn has_plan(plans: &Vec<PlanRow>, f: Family) -> (found: bool)
    ensures
        found == planned(plans@, f),
{
    let mut i: usize = 0;
    while i < plans.len()
        invariant
            i <= plans@.len(),
            forall|j: int| 0 <= j < i ==> plans@[j].family != f,
        decreases plans.len() - i,
    {
        if plans[i].family == f {
            return true;
        }
        i = i + 1;
    }
    false
}

fn any_missing(families: &Vec<Family>, plans: &Vec<PlanRow>) -> (missing: bool)
    ensures
        missing == family_missing(families@, plans@),
{
    let mut j: usize = 0;
    while j < families.len()
        invariant
            j <= families@.len(),
            forall|k: int| 0 <= k < j ==> planned(plans@, #[trigger] families@[k]),
        decreases families.len() - j,
    {
        if !has_plan(plans, families[j]) {
            return true;
        }
        j = j + 1;
    }
    false
}

fn any_survivor(families: &Vec<Family>, plans: &Vec<PlanRow>) -> (s: bool)
    ensures
        s == survivor(families@, plans@),
{
    let mut i: usize = 0;
    while i < plans.len()
        invariant
            i <= plans@.len(),
            forall|j: int|
                0 <= j < i ==> families@.contains(#[trigger] plans@[j].family) || terminal(
                    plans@[j].state@,
                ),
        decreases plans.len() - i,
    {
        if !selects(families, plans[i].family) && !is_terminal(&plans[i].state) {
            return true;
        }
        i = i + 1;
    }
    false
}

fn any_blocked(families: &Vec<Family>, plans: &Vec<PlanRow>) -> (b: bool)
    ensures
        b == blocked(families@, plans@),
{
    let mut i: usize = 0;
    while i < plans.len()
        invariant
            i <= plans@.len(),
            forall|j: int|
                0 <= j < i ==> !families@.contains(#[trigger] plans@[j].family) || !(terminal(
                    plans@[j].state@,
                ) || plans@[j].cancel_requested),
        decreases plans.len() - i,
    {
        if selects(families, plans[i].family) && (is_terminal(&plans[i].state)
            || plans[i].cancel_requested) {
            return true;
        }
        i = i + 1;
    }
    false
}

/// Decides a cancellation of the command's families (already checked by
/// `FamilyControl::request`) against the bundle's current plans.
pub fn plan_cancel(
    expected: i64,
    families: &Vec<Family>,
    bundle_revision: i64,
    bundle_state: &String,
    payer: u128,
    plans: &Vec<PlanRow>,
) -> (r: Result<CancelDecision, MigrationError>)
    ensures
        match r {
            Ok(d) => cancel_result(expected, families@, bundle_revision, bundle_state@, payer, plans@)
                == Ok::<CancelView, MigrationError>(d.view()),
            Err(e) => cancel_result(expected, families@, bundle_revision, bundle_state@, payer, plans@)
                == Err::<CancelView, MigrationError>(e),
        },
{
    if bundle_revision != expected || is_terminal(bundle_state) {
        return Err(MigrationError::Conflict);
    }
    if any_missing(families, plans) {
        return Err(MigrationError::NotFound);
    }
    if any_blocked(families, plans) {
        return Err(MigrationError::Conflict);
    }
    if expected == i64::MAX {
        return Err(MigrationError::Conflict);
    }
    let survives = any_survivor(families, plans);
    let mut cancels: Vec<PlanCancel> = Vec::new();
    let mut i: usize = 0;
    while i < plans.len()
        invariant
            i <= plans@.len(),
            cancels@ == cancellations(families@, plans@.take(i as int), survives, payer),
        decreases plans.len() - i,
    {
        let p = &plans[i];
        assert(plans@.take(i as int + 1).drop_last() =~= plans@.take(i as int));
        assert(plans@.take(i as int + 1).last() == plans@[i as int]);
        if selects(families, p.family) {
            let shared = survives && p.id == payer && (is_word(&p.phase, "cohort") || is_word(
                &p.phase,
                "capture",
            ));
            cancels.push(PlanCancel { plan: p.id, family: p.family, revision: p.revision, shared });
        }
        i = i + 1;
    }
    assert(plans@.take(i as int) =~= plans@);
    let state = if survives {
        bundle_state.clone()
    } else {
        "cancelled".to_owned()
    };
    Ok(CancelDecision { cancels, next_revision: expected + 1, survives, state })
}

} // verus!
