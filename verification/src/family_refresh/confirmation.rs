//! Confirmation of a frozen group of family plans: the request checks made
//! before any transaction, the bundle and plan checks made under lock, and
//! what becomes of each plan.
use super::model::{
    bytes_equal, decimal_shape, decode_count, digits_value, family_name, lemma_digits_nonnegative, spec_reconciles,
    Counts, Family,
};
use crate::bytes::{hex_bytes, hex_text};
use vstd::utf8::encode_utf8;
use crate::error::MigrationError;
use vstd::prelude::*;
use vstd::string::StringSliceAdditionalSpecFns;

verus! {

/// A canonical positive decimal revision: no sign, no leading zero, at most
/// `i64::MAX`.
pub open spec fn canonical_revision(raw: Seq<u8>) -> bool {
    decimal_shape(raw) && 0 < digits_value(raw) <= i64::MAX
}

pub fn revision(raw: &str) -> (n: Result<i64, MigrationError>)
    ensures
        n is Ok <==> canonical_revision(raw.spec_bytes()),
        n matches Ok(v) ==> v == digits_value(raw.spec_bytes()),
        n matches Err(e) ==> e == MigrationError::InvalidInput,
{
    proof {
        if decimal_shape(raw.spec_bytes()) {
            lemma_digits_nonnegative(raw.spec_bytes());
        }
    }
    match decode_count(raw) {
        Ok(v) => if v == 0 {
            Err(MigrationError::InvalidInput)
        } else {
            Ok(v as i64)
        },
        Err(_) => Err(MigrationError::InvalidInput),
    }
}

pub open spec fn is_lower_hex(b: u8) -> bool {
    (48 <= b <= 57) || (97 <= b <= 102)
}

pub open spec fn spec_valid_digest(raw: Seq<u8>) -> bool {
    raw.len() == 64 && forall|i: int| 0 <= i < raw.len() ==> is_lower_hex(#[trigger] raw[i])
}

/// A digest (or field id) is exactly 64 lower-case hexadecimal digits.
pub fn valid_digest(raw: &str) -> (valid: bool)
    ensures
        valid == spec_valid_digest(raw.spec_bytes()),
{
    let bytes = raw.as_bytes();
    if bytes.len() != 64 {
        return false;
    }
    let mut i: usize = 0;
    while i < bytes.len()
        invariant
            bytes@ == raw.spec_bytes(),
            bytes@.len() == 64,
            i <= 64,
            forall|j: int| 0 <= j < i ==> is_lower_hex(#[trigger] bytes@[j]),
        decreases 64 - i,
    {
        let b = bytes[i];
        if !((48 <= b && b <= 57) || (97 <= b && b <= 102)) {
            assert(!is_lower_hex(bytes@[i as int]));
            return false;
        }
        i = i + 1;
    }
    true
}

/// The bytes of a text.
pub open spec fn text_bytes(s: String) -> Seq<u8> {
    encode_utf8(s@)
}

/// One plan the operator confirms, with what the operator saw of it.
pub struct SelectedPlan {
    pub family: Family,
    pub plan_id: u128,
    pub plan_revision: String,
    pub plan_digest: String,
    pub expected_counts: Counts,
}

pub open spec fn distinct_families(families: Seq<SelectedPlan>) -> bool {
    forall|i: int, j: int|
        0 <= i < families.len() && 0 <= j < families.len() && i != j ==> #[trigger] families[i].family
            != #[trigger] families[j].family
}

/// A selected plan names a digest, a canonical revision and counts that
/// reconcile.
pub open spec fn plan_request_ok(p: SelectedPlan) -> bool {
    &&& spec_valid_digest(text_bytes(p.plan_digest))
    &&& canonical_revision(text_bytes(p.plan_revision))
    &&& spec_reconciles(p.expected_counts)
}

/// The checks made before any transaction: a canonical expected revision, at
/// least one family, each at most once, a bundle digest, and a valid entry
/// for each plan. Every failure is invalid input.
pub open spec fn request_result(expected: Seq<u8>, bundle_digest: Seq<u8>, families: Seq<SelectedPlan>) -> Result<
    i64,
    MigrationError,
> {
    if !canonical_revision(expected) {
        Err(MigrationError::InvalidInput)
    } else if families.len() == 0 || !distinct_families(families) || !spec_valid_digest(bundle_digest) || exists|
        i: int,
    | 0 <= i < families.len() && !plan_request_ok(#[trigger] families[i]) {
        Err(MigrationError::InvalidInput)
    } else {
        Ok(digits_value(expected) as i64)
    }
}

fn plan_entry_ok(p: &SelectedPlan) -> (ok: bool)
    ensures
        ok == plan_request_ok(*p),
{
    valid_digest(p.plan_digest.as_str()) && revision(p.plan_revision.as_str()).is_ok() && p.expected_counts.reconciles()
}

/// Checks a confirmation request before any transaction and gives its
/// expected bundle revision.
pub fn check_request(expected_revision: &str, bundle_digest: &str, families: &Vec<SelectedPlan>) -> (r: Result<
    i64,
    MigrationError,
>)
    ensures
        r == request_result(expected_revision.spec_bytes(), bundle_digest.spec_bytes(), families@),
{
    let expected = match revision(expected_revision) {
        Ok(v) => v,
        Err(e) => return Err(e),
    };
    if families.len() == 0 || !valid_digest(bundle_digest) {
        return Err(MigrationError::InvalidInput);
    }
    let n = families.len();
    let mut i: usize = 0;
    while i < n
        invariant
            n == families@.len(),
            i <= n,
            forall|a: int| 0 <= a < i ==> plan_request_ok(#[trigger] families@[a]),
            forall|a: int, b: int|
                0 <= a < i && 0 <= b < n && a != b ==> #[trigger] families@[a].family
                    != #[trigger] families@[b].family,
        decreases n - i,
    {
        if !plan_entry_ok(&families[i]) {
            return Err(MigrationError::InvalidInput);
        }
        let mut j: usize = 0;
        while j < n
            invariant
                n == families@.len(),
                i < n,
                j <= n,
                forall|b: int| 0 <= b < j && b != i ==> families@[i as int].family != #[trigger] families@[b].family,
            decreases n - j,
        {
            if j != i && families[i].family == families[j].family {
                assert(!distinct_families(families@));
                return Err(MigrationError::InvalidInput);
            }
            j = j + 1;
        }
        i = i + 1;
    }
    Ok(expected)
}

/// The bundle row a confirmation admits.
pub struct BundleRow {
    pub executor_user_id: u128,
    pub revision: i64,
    pub confirmed: bool,
    pub state: String,
    pub digest: Option<Vec<u8>>,
}

/// The bundle is still awaiting confirmation by its executor at the expected
/// revision, and both its stored digest and the operator's equal the digest
/// of its plans as sealed now.
pub open spec fn bundle_result(
    executor: Option<u128>,
    b: BundleRow,
    expected: i64,
    combined: Seq<u8>,
    bundle_digest: Seq<u8>,
) -> Result<(), MigrationError> {
    if executor != Some(b.executor_user_id) || b.revision != expected || b.confirmed || !(b.state@ == "preparing"@
        || b.state@ == "ready"@) {
        Err(MigrationError::Conflict)
    } else if !(b.digest matches Some(d) && d@ == combined) || hex_text(combined) != bundle_digest {
        Err(MigrationError::Conflict)
    } else {
        Ok(())
    }
}

fn is_word(s: &String, w: &str) -> (same: bool)
    ensures
        same == (s@ == w@),
{
    *s == w.to_owned()
}

pub fn check_bundle(
    executor: Option<u128>,
    b: &BundleRow,
    expected: i64,
    combined: &Vec<u8>,
    bundle_digest: &str,
) -> (r: Result<(), MigrationError>)
    requires
        2 * combined@.len() <= usize::MAX,
    ensures
        r == bundle_result(executor, *b, expected, combined@, bundle_digest.spec_bytes()),
{
    let own = match executor {
        Some(e) => e == b.executor_user_id,
        None => false,
    };
    if !own || b.revision != expected || b.confirmed || !(is_word(&b.state, "preparing") || is_word(&b.state, "ready")) {
        return Err(MigrationError::Conflict);
    }
    let stored = match &b.digest {
        Some(d) => bytes_equal(d.as_slice(), combined.as_slice()),
        None => false,
    };
    let text = hex_bytes(combined.as_slice());
    if !stored || !bytes_equal(text.as_slice(), bundle_digest.as_bytes()) {
        return Err(MigrationError::Conflict);
    }
    Ok(())
}

/// A plan row of the bundle, as locked for confirmation.
pub struct PlanRow {
    pub id: u128,
    pub family: String,
    pub revision: i64,
    pub state: String,
    pub unexpired: Option<bool>,
    pub lease_live: Option<bool>,
    pub digest: Option<Vec<u8>>,
    pub counts: Counts,
}

/// The index of the first selected plan of the named family.
pub open spec fn first_match(families: Seq<SelectedPlan>, name: Seq<char>) -> Option<int>
    decreases families.len(),
{
    if families.len() == 0 {
        None
    } else {
        match first_match(families.drop_last(), name) {
            Some(k) => Some(k),
            None => if family_name(families.last().family) == name {
                Some(families.len() - 1)
            } else {
                None
            },
        }
    }
}

/// A selected plan's row must be the plan the operator saw: same id,
/// revision, digest and counts, ready and unexpired; and it must hold some
/// useful native work. Gives whether the plan holds or excludes anything.
pub open spec fn plan_verdict(p: PlanRow, want: SelectedPlan, useful: bool) -> Result<bool, MigrationError> {
    if p.id != want.plan_id {
        Err(MigrationError::Conflict)
    } else if !canonical_revision(text_bytes(want.plan_revision)) {
        Err(MigrationError::InvalidInput)
    } else if p.revision != digits_value(text_bytes(want.plan_revision)) || p.state@ != "ready"@ || p.unexpired
        != Some(true) || !(p.digest matches Some(d) && hex_text(d@) == text_bytes(want.plan_digest)) || p.counts
        != want.expected_counts {
        Err(MigrationError::Conflict)
    } else if !useful {
        Err(MigrationError::SourceNotEligible)
    } else {
        Ok(p.counts.held > 0 || p.counts.excluded > 0)
    }
}

/// The plans in order: a leased plan refuses the confirmation; an unselected
/// plan is passed over; a selected one must pass its verdict. Gives whether
/// any selected plan holds or excludes something.
pub open spec fn admission_upto(plans: Seq<PlanRow>, useful: Seq<bool>, families: Seq<SelectedPlan>, n: nat) -> Result<
    bool,
    MigrationError,
>
    decreases n,
{
    if n == 0 {
        Ok(false)
    } else {
        match admission_upto(plans, useful, families, (n - 1) as nat) {
            Err(e) => Err(e),
            Ok(x) => {
                let p = plans[n - 1];
                if p.lease_live == Some(true) {
                    Err(MigrationError::ImportBusy)
                } else {
                    match first_match(families, p.family@) {
                        None => Ok(x),
                        Some(k) => match plan_verdict(p, families[k], useful[n - 1]) {
                            Err(e) => Err(e),
                            Ok(ex) => Ok(x || ex),
                        },
                    }
                }
            },
        }
    }
}

/// Every selected family has a plan row.
pub open spec fn covers(plans: Seq<PlanRow>, families: Seq<SelectedPlan>) -> bool {
    forall|i: int|
        0 <= i < families.len() ==> exists|j: int|
            0 <= j < plans.len() && plans[j].family@ == family_name(#[trigger] families[i].family)
}

/// The admission of the selected plans: each must have its row; every row is
/// checked in order; leaving a plan out, or confirming one that holds or
/// excludes records, must be acknowledged.
pub open spec fn admission_result(
    plans: Seq<PlanRow>,
    useful: Seq<bool>,
    families: Seq<SelectedPlan>,
    acknowledged: bool,
) -> Result<(), MigrationError> {
    if plans.len() < families.len() || !covers(plans, families) {
        Err(MigrationError::Conflict)
    } else {
        match admission_upto(plans, useful, families, plans.len()) {
            Err(e) => Err(e),
            Ok(ex) => if (plans.len() != families.len() || ex) && !acknowledged {
                Err(MigrationError::InvalidInput)
            } else {
                Ok(())
            },
        }
    }
}

proof fn lemma_first_match_prefix(families: Seq<SelectedPlan>, name: Seq<char>, j: int)
    requires
        0 <= j <= families.len(),
        first_match(families.take(j), name) is Some,
    ensures
        first_match(families, name) == first_match(families.take(j), name),
    decreases families.len(),
{
    if j < families.len() {
        assert(families.drop_last().take(j) =~= families.take(j));
        lemma_first_match_prefix(families.drop_last(), name, j);
    } else {
        assert(families.take(j) =~= families);
    }
}

proof fn lemma_first_match_none(families: Seq<SelectedPlan>, name: Seq<char>)
    requires
        forall|a: int| 0 <= a < families.len() ==> family_name(#[trigger] families[a].family) != name,
    ensures
        first_match(families, name) is None,
    decreases families.len(),
{
    if families.len() > 0 {
        lemma_first_match_none(families.drop_last(), name);
    }
}

proof fn lemma_first_match_found(families: Seq<SelectedPlan>, name: Seq<char>, k: int)
    requires
        0 <= k < families.len(),
        family_name(families[k].family) == name,
        forall|a: int| 0 <= a < k ==> family_name(#[trigger] families[a].family) != name,
    ensures
        first_match(families, name) == Some(k),
{
    let t = families.take(k + 1);
    assert(t.drop_last() =~= families.take(k));
    lemma_first_match_none(families.take(k), name);
    lemma_first_match_prefix(families, name, k + 1);
}

fn find_selected(families: &Vec<SelectedPlan>, name: &String) -> (k: Option<usize>)
    ensures
        match k {
            Some(i) => i < families@.len() && first_match(families@, name@) == Some(i as int),
            None => first_match(families@, name@) is None,
        },
{
    let mut j: usize = 0;
    while j < families.len()
        invariant
            j <= families@.len(),
            forall|a: int| 0 <= a < j ==> family_name(#[trigger] families@[a].family) != name@,
        decreases families.len() - j,
    {
        if *name == families[j].family.as_str().to_owned() {
            proof {
                lemma_first_match_found(families@, name@, j as int);
            }
            return Some(j);
        }
        j = j + 1;
    }
    proof {
        lemma_first_match_none(families@, name@);
    }
    None
}

fn verdict(p: &PlanRow, want: &SelectedPlan, useful: bool) -> (r: Result<bool, MigrationError>)
    ensures
        r == plan_verdict(*p, *want, useful),
{
    if p.id != want.plan_id {
        return Err(MigrationError::Conflict);
    }
    let rev = match revision(want.plan_revision.as_str()) {
        Ok(v) => v,
        Err(e) => return Err(e),
    };
    let wanted = want.plan_digest.as_str().as_bytes();
    assert(wanted@.len() == wanted.len());
    let digest_ok = match &p.digest {
        Some(d) => {
            if d.len() > usize::MAX / 2 {
                assert(hex_text(d@).len() > wanted@.len());
                false
            } else {
                let text = hex_bytes(d.as_slice());
                bytes_equal(text.as_slice(), wanted)
            }
        },
        None => false,
    };
    if p.revision != rev || !is_word(&p.state, "ready") || p.unexpired != Some(true) || !digest_ok || p.counts
        != want.expected_counts {
        return Err(MigrationError::Conflict);
    }
    if !useful {
        return Err(MigrationError::SourceNotEligible);
    }
    Ok(p.counts.held > 0 || p.counts.excluded > 0)
}

proof fn lemma_admission_error_sticks(
    plans: Seq<PlanRow>,
    useful: Seq<bool>,
    families: Seq<SelectedPlan>,
    n: nat,
    m: nat,
)
    requires
        n <= m,
        admission_upto(plans, useful, families, n) is Err,
    ensures
        admission_upto(plans, useful, families, m) == admission_upto(plans, useful, families, n),
    decreases m,
{
    if m > n {
        lemma_admission_error_sticks(plans, useful, families, n, (m - 1) as nat);
    }
}

/// Admits the selected plans of a bundle (`useful[i]` tells whether plan row
/// `i` has any useful native work in its manifest).
pub fn admit_plans(plans: &Vec<PlanRow>, useful: &Vec<bool>, families: &Vec<SelectedPlan>, acknowledged: bool) -> (r:
    Result<(), MigrationError>)
    requires
        useful@.len() == plans@.len(),
    ensures
        r == admission_result(plans@, useful@, families@, acknowledged),
{
    if plans.len() < families.len() {
        return Err(MigrationError::Conflict);
    }
    let mut i: usize = 0;
    while i < families.len()
        invariant
            i <= families@.len(),
            forall|a: int|
                0 <= a < i ==> exists|j: int|
                    0 <= j < plans@.len() && plans@[j].family@ == family_name(#[trigger] families@[a].family),
        decreases families.len() - i,
    {
        let name = families[i].family.as_str();
        let mut j: usize = 0;
        let mut found = false;
        while j < plans.len() && !found
            invariant
                j <= plans@.len(),
                i < families@.len(),
                name@ == family_name(families@[i as int].family),
                found ==> exists|b: int| 0 <= b < plans@.len() && plans@[b].family@ == name@,
                !found ==> forall|b: int| 0 <= b < j ==> #[trigger] plans@[b].family@ != name@,
            decreases (plans.len() - j) as int + if found {
                0int
            } else {
                1int
            },
        {
            if plans[j].family == name.to_owned() {
                found = true;
            } else {
                j = j + 1;
            }
        }
        if !found {
            assert(!covers(plans@, families@)) by {
                assert(families@[i as int].family == families@[i as int].family);
            }
            return Err(MigrationError::Conflict);
        }
        i = i + 1;
    }
    let mut excluded = false;
    let mut k: usize = 0;
    while k < plans.len()
        invariant
            k <= plans@.len(),
            useful@.len() == plans@.len(),
            plans@.len() >= families@.len(),
            covers(plans@, families@),
            admission_upto(plans@, useful@, families@, k as nat) == Ok::<bool, MigrationError>(excluded),
        decreases plans.len() - k,
    {
        let p = &plans[k];
        if p.lease_live == Some(true) {
            proof {
                lemma_admission_error_sticks(plans@, useful@, families@, k as nat + 1, plans@.len());
            }
            return Err(MigrationError::ImportBusy);
        }
        match find_selected(families, &p.family) {
            None => {},
            Some(w) => match verdict(p, &families[w], useful[k]) {
                Err(e) => {
                    proof {
                        lemma_admission_error_sticks(plans@, useful@, families@, k as nat + 1, plans@.len());
                    }
                    return Err(e);
                },
                Ok(ex) => {
                    excluded = excluded || ex;
                },
            },
        }
        k = k + 1;
    }
    if (plans.len() != families.len() || excluded) && !acknowledged {
        return Err(MigrationError::InvalidInput);
    }
    Ok(())
}

proof fn lemma_first_match_some(families: Seq<SelectedPlan>, name: Seq<char>, k: int)
    requires
        0 <= k < families.len(),
        family_name(families[k].family) == name,
    ensures
        first_match(families, name) is Some,
    decreases families.len(),
{
    if k < families.len() - 1 {
        lemma_first_match_some(families.drop_last(), name, k);
    }
}

/// What the plans admitted so far record: every selected plan among them that
/// holds or excludes records is noticed.
proof fn lemma_admission_notices_exclusions(
    plans: Seq<PlanRow>,
    useful: Seq<bool>,
    families: Seq<SelectedPlan>,
    n: nat,
)
    requires
        n <= plans.len(),
    ensures
        admission_upto(plans, useful, families, n) matches Ok(x) ==> forall|i: int|
            0 <= i < n && (exists|k: int|
                0 <= k < families.len() && family_name(#[trigger] families[k].family) == plans[i].family@)
                && (#[trigger] plans[i].counts.held > 0 || plans[i].counts.excluded > 0) ==> x,
    decreases n,
{
    if n > 0 {
        lemma_admission_notices_exclusions(plans, useful, families, (n - 1) as nat);
        if let Ok(x) = admission_upto(plans, useful, families, n) {
            let m = n - 1;
            let p = plans[m];
            assert forall|i: int|
                0 <= i < n && (exists|k: int|
                    0 <= k < families.len() && family_name(#[trigger] families[k].family) == plans[i].family@)
                    && (#[trigger] plans[i].counts.held > 0 || plans[i].counts.excluded > 0) implies x by {
                if i == m {
                    let k = choose|k: int|
                        0 <= k < families.len() && family_name(#[trigger] families[k].family) == plans[i].family@;
                    lemma_first_match_some(families, p.family@, k);
                    let w = first_match(families, p.family@)->Some_0;
                    assert(plan_verdict(p, families[w], useful[m]) is Ok);
                    assert(p.counts == families[w].expected_counts);
                }
            }
        }
    }
}

/// A confirmation that leaves exclusions unacknowledged is refused whenever a
/// selected plan holds or excludes records.
pub proof fn law_exclusions_need_acknowledgement(
    plans: Seq<PlanRow>,
    useful: Seq<bool>,
    families: Seq<SelectedPlan>,
    acknowledged: bool,
)
    requires
        useful.len() == plans.len(),
    ensures
        !acknowledged && (exists|i: int, k: int|
            #![trigger plans[i], families[k]]
            0 <= i < plans.len() && 0 <= k < families.len() && family_name(families[k].family) == plans[i].family@
                && (plans[i].counts.held > 0 || plans[i].counts.excluded > 0)) ==> admission_result(
            plans,
            useful,
            families,
            acknowledged,
        ) is Err,
{
    lemma_admission_notices_exclusions(plans, useful, families, plans.len());
    if !acknowledged && (exists|i: int, k: int|
        #![trigger plans[i], families[k]]
        0 <= i < plans.len() && 0 <= k < families.len() && family_name(families[k].family) == plans[i].family@
            && (plans[i].counts.held > 0 || plans[i].counts.excluded > 0)) {
        let (i, k) = choose|i: int, k: int|
            #![trigger plans[i], families[k]]
            0 <= i < plans.len() && 0 <= k < families.len() && family_name(families[k].family) == plans[i].family@
                && (plans[i].counts.held > 0 || plans[i].counts.excluded > 0);
        assert(family_name(families[k].family) == plans[i].family@);
        assert(plans[i].counts.held > 0 || plans[i].counts.excluded > 0);
    }
}

/// What a confirmation does to each plan row.
#[derive(Debug, Clone, Copy, PartialEq, Eq, Structural)]
pub enum PlanAction {
    /// Selected: queued for its apply phase.
    Queue,
    /// Not selected: cancelled.
    Cancel,
    /// Not selected and already cancelled.
    Keep,
}

pub open spec fn action_of(id: u128, state: Seq<char>, families: Seq<SelectedPlan>) -> PlanAction {
    if exists|i: int| 0 <= i < families.len() && #[trigger] families[i].plan_id == id {
        PlanAction::Queue
    } else if state != "cancelled"@ {
        PlanAction::Cancel
    } else {
        PlanAction::Keep
    }
}

pub fn plan_action(id: u128, state: &String, families: &Vec<SelectedPlan>) -> (a: PlanAction)
    ensures
        a == action_of(id, state@, families@),
{
    let mut i: usize = 0;
    while i < families.len()
        invariant
            i <= families@.len(),
            forall|a: int| 0 <= a < i ==> #[trigger] families@[a].plan_id != id,
        decreases families.len() - i,
    {
        if families[i].plan_id == id {
            return PlanAction::Queue;
        }
        i = i + 1;
    }
    if is_word(state, "cancelled") {
        PlanAction::Keep
    } else {
        PlanAction::Cancel
    }
}

/// The bundle's revision once confirmed: one past the expected revision.
pub fn confirmed_revision(expected: i64) -> (r: Result<i64, MigrationError>)
    ensures
        r == if expected < i64::MAX {
            Ok::<i64, MigrationError>((expected + 1) as i64)
        } else {
            Err(MigrationError::Conflict)
        },
{
    if expected < i64::MAX {
        Ok(expected + 1)
    } else {
        Err(MigrationError::Conflict)
    }
}

/// A confirmation queues exactly the plans the operator selected; every other
/// plan of the bundle ends cancelled.
pub proof fn law_confirmation_queues_exactly_the_selection(
    id: u128,
    state: Seq<char>,
    families: Seq<SelectedPlan>,
)
    ensures
        (action_of(id, state, families) == PlanAction::Queue) == (exists|i: int|
            0 <= i < families.len() && #[trigger] families[i].plan_id == id),
        action_of(id, state, families) != PlanAction::Queue ==> (action_of(id, state, families)
            == PlanAction::Keep) == (state == "cancelled"@),
{
}

} // verus!
