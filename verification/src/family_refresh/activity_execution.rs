//! Decisions of executing one confirmed note/task unit: the members it may
//! name, the proposal recomputed against the locked native row, and the check
//! that it is still exactly the approved one.
use super::activity_delta::{
    propose_insert, propose_update, result_view, spec_insert, spec_update, Doc, Members, Proposal,
    ProposalView, Scope, Source,
};
use super::manifest::{current_from, total};
use super::model::{Baseline, Counts, Current, Hold, Native};
use crate::error::MigrationError;
use vstd::prelude::*;

verus! {

/// A member destination as the approved mapping recorded it.
#[derive(Debug, Clone)]
pub struct MemberChoice {
    pub id: u128,
    pub label: String,
    pub status: String,
}

/// The membership row found for a member destination now.
#[derive(Debug, Clone)]
pub struct MemberRow {
    pub status: String,
    pub display_name: String,
}

/// Every chosen member still exists with the recorded status and name.
pub open spec fn members_unchanged(chosen: Seq<MemberChoice>, found: Seq<Option<MemberRow>>) -> bool {
    forall|i: int|
        0 <= i < chosen.len() ==> match #[trigger] found[i] {
            Some(row) => row.status@ == chosen[i].status@ && row.display_name@ == chosen[i].label@,
            None => false,
        }
}

pub open spec fn chosen_member(chosen: Seq<MemberChoice>, x: u128) -> bool {
    exists|i: int| 0 <= i < chosen.len() && (#[trigger] chosen[i]).id == x
}

pub open spec fn chosen_active(chosen: Seq<MemberChoice>, x: u128) -> bool {
    exists|i: int| 0 <= i < chosen.len() && (#[trigger] chosen[i]).id == x && chosen[i].status@ == "active"@
}

fn is_word(s: &String, word: &str) -> (same: bool)
    ensures
        same == (s@ == word@),
{
    *s == word.to_owned()
}

/// Rechecks the member destinations (`found[i]` is the row of `chosen[i]` now):
/// any that vanished or changed holds the unit; otherwise the members a role
/// may name, and those that may be assigned.
pub fn recheck_members(chosen: &Vec<MemberChoice>, found: &Vec<Option<MemberRow>>) -> (r: Result<Members, Hold>)
    requires
        found@.len() == chosen@.len(),
    ensures
        r is Ok <==> members_unchanged(chosen@, found@),
        r matches Err(h) ==> h == Hold::TargetUnavailable,
        r matches Ok(m) ==> (forall|x: u128| m.all@.contains(x) <==> chosen_member(chosen@, x)) && (
        forall|x: u128| m.active@.contains(x) <==> chosen_active(chosen@, x)),
{
    let mut all: Vec<u128> = Vec::new();
    let mut active: Vec<u128> = Vec::new();
    let mut i: usize = 0;
    while i < chosen.len()
        invariant
            i <= chosen@.len(),
            found@.len() == chosen@.len(),
            members_unchanged(chosen@.take(i as int), found@.take(i as int)),
            forall|x: u128| all@.contains(x) <==> chosen_member(chosen@.take(i as int), x),
            forall|x: u128| active@.contains(x) <==> chosen_active(chosen@.take(i as int), x),
        decreases chosen.len() - i,
    {
        let c = &chosen[i];
        let ghost before = chosen@.take(i as int);
        let ghost after = chosen@.take(i as int + 1);
        assert(after =~= before.push(chosen@[i as int]));
        assert(found@.take(i as int + 1) =~= found@.take(i as int).push(found@[i as int]));
        let ok = match &found[i] {
            Some(row) => row.status == c.status && row.display_name == c.label,
            None => false,
        };
        if !ok {
            assert(!members_unchanged(chosen@, found@)) by {
                assert(found@.take(i as int + 1)[i as int] == found@[i as int]);
            }
            return Err(Hold::TargetUnavailable);
        }
        let is_active = is_word(&c.status, "active");
        let ghost all0 = all@;
        let ghost active0 = active@;
        all.push(c.id);
        if is_active {
            active.push(c.id);
        }
        assert forall|x: u128| all@.contains(x) <==> chosen_member(after, x) by {
            if all@.contains(x) {
                let k = choose|k: int| 0 <= k < all@.len() && all@[k] == x;
                if k < all0.len() {
                    assert(all0[k] == x);
                    assert(all0.contains(x));
                    assert(chosen_member(before, x));
                    let j = choose|j: int| 0 <= j < before.len() && (#[trigger] before[j]).id == x;
                    assert(after[j] == before[j]);
                } else {
                    assert(after[i as int].id == x);
                }
            }
            if chosen_member(after, x) {
                let j = choose|j: int| 0 <= j < after.len() && (#[trigger] after[j]).id == x;
                if j < i {
                    assert(before[j] == after[j]);
                    assert(chosen_member(before, x));
                    assert(all0.contains(x));
                    let k = choose|k: int| 0 <= k < all0.len() && all0[k] == x;
                    assert(all@[k] == x);
                } else {
                    assert(all@[all@.len() - 1] == x);
                }
            }
        }
        assert forall|x: u128| active@.contains(x) <==> chosen_active(after, x) by {
            if active@.contains(x) {
                let k = choose|k: int| 0 <= k < active@.len() && active@[k] == x;
                if k < active0.len() {
                    assert(active0[k] == x);
                    assert(active0.contains(x));
                    assert(chosen_active(before, x));
                    let j = choose|j: int|
                        0 <= j < before.len() && (#[trigger] before[j]).id == x && before[j].status@ == "active"@;
                    assert(after[j] == before[j]);
                } else {
                    assert(after[i as int].id == x && after[i as int].status@ == "active"@);
                }
            }
            if chosen_active(after, x) {
                let j = choose|j: int|
                    0 <= j < after.len() && (#[trigger] after[j]).id == x && after[j].status@ == "active"@;
                if j < i {
                    assert(before[j] == after[j]);
                    assert(chosen_active(before, x));
                    assert(active0.contains(x));
                    let k = choose|k: int| 0 <= k < active0.len() && active0[k] == x;
                    assert(active@[k] == x);
                } else {
                    assert(active@[active@.len() - 1] == x);
                }
            }
        }
        i = i + 1;
    }
    assert(chosen@.take(i as int) =~= chosen@);
    assert(found@.take(i as int) =~= found@);
    Ok(Members { all, active })
}

/// The proposal recomputed at execution: against the proven baseline when the
/// identity still points at the approved target, else as an insert that is
/// refused if any trace of the record already exists.
pub open spec fn execution_proposal_result(
    scope: Scope,
    person: u128,
    target: u128,
    baseline: Option<Baseline<Doc>>,
    identity: Option<u128>,
    row: Option<Doc>,
    head: Option<u128>,
    collision: bool,
    source: Source,
    members: Members,
) -> Result<ProposalView, Hold> {
    match baseline {
        Some(b) => if identity != Some(target) {
            Err(Hold::IdentityMismatch)
        } else {
            spec_update(
                scope,
                Some(b),
                match row {
                    Some(r) => Some(
                        Current { head_id: head, ..current_from(person, target, r, Seq::empty()) },
                    ),
                    None => None,
                },
                source,
                members,
                true,
            )
        },
        None => spec_insert(
            scope,
            person,
            target,
            source,
            members,
            identity is Some || row is Some || collision,
            true,
        ),
    }
}

pub fn execution_proposal(
    scope: &Scope,
    person: u128,
    target: u128,
    baseline: Option<&Baseline<Doc>>,
    identity: Option<u128>,
    row: Option<Doc>,
    head: Option<u128>,
    collision: bool,
    source: &Source,
    members: &Members,
) -> (r: Result<Proposal, Hold>)
    requires
        baseline matches Some(b) ==> b.native.wf(),
        row matches Some(d) ==> d.wf(),
    ensures
        result_view(r) == execution_proposal_result(
            *scope,
            person,
            target,
            super::model::deref_opt(baseline),
            identity,
            row,
            head,
            collision,
            *source,
            *members,
        ),
{
    match baseline {
        Some(b) => {
            let same_target = match identity {
                Some(t) => t == target,
                None => false,
            };
            if !same_target {
                return Err(Hold::IdentityMismatch);
            }
            let ghost row0 = row;
            let current = match row {
                Some(d) => {
                    let c = super::manifest::current_of(person, target, d, &Vec::new());
                    Some(Current { head_id: head, ..c })
                },
                None => None,
            };
            proof {
                let want = match row0 {
                    Some(r) => Some(
                        Current { head_id: head, ..current_from(person, target, r, Seq::empty()) },
                    ),
                    None => None,
                };
                assert(current == want);
            }
            propose_update(scope, Some(b), current.as_ref(), source, members, true)
        },
        None => {
            let traced = identity.is_some() || row.is_some() || collision;
            propose_insert(scope, person, target, source, members, traced, true)
        },
    }
}

pub open spec fn same_proposal(a: ProposalView, b: ProposalView) -> bool {
    a == b
}

/// The recomputed proposal, with its source-only coverage recounted, is the
/// approved one; any difference is a local change since approval.
pub open spec fn frozen_result(
    proposal: ProposalView,
    source_only: Seq<u64>,
    approved: ProposalView,
) -> Result<Result<(), Hold>, MigrationError> {
    if total(source_only) > u64::MAX {
        Err(MigrationError::Crypto)
    } else if (ProposalView {
        counts: Counts { source_only: total(source_only) as u64, ..proposal.counts },
        ..proposal
    }) == approved {
        Ok(Ok(()))
    } else {
        Ok(Err(Hold::LocalChange))
    }
}

pub fn frozen_check(proposal: Proposal, source_only: &Vec<u64>, approved: &Proposal) -> (r: Result<
    Result<(), Hold>,
    MigrationError,
>)
    requires
        proposal.after.wf(),
        approved.after.wf(),
    ensures
        r == frozen_result(result_view(Ok(proposal))->Ok_0, source_only@, result_view(Ok(*approved))->Ok_0),
{
    let extra = match super::manifest::source_only_total(source_only) {
        Ok(v) => v,
        Err(_) => return Err(MigrationError::Crypto),
    };
    let counts = Counts { source_only: extra, ..proposal.counts };
    let same = proposal.kind == approved.kind && proposal.target == approved.target
        && proposal.person == approved.person && proposal.expected_revision
        == approved.expected_revision && proposal.expected_head == approved.expected_head
        && counts == approved.counts && proposal.after.same(&approved.after);
    if same {
        Ok(Ok(()))
    } else {
        Ok(Err(Hold::LocalChange))
    }
}

} // verus!
