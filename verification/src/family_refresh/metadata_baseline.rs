//! Encrypted, transaction-local metadata after-state. Current rows never create
//! ownership: only successful INSERT receipts can do that.
use super::metadata_delta::{
    alias_of, contains_id, find_key, insert_id, own_map, ownership_within,
    aliases_shared, precheck, shares, within, Alias, Ownership, Snapshot, State,
};
use super::activity_delta::{earlier, Instant};
use super::model::Hold;
use crate::crypto::OrganizationId;
use crate::error::MigrationError;
use vstd::prelude::*;

verus! {

/// The proven after-state of one Person: the native snapshot observed right
/// after the refresh, and the ownership its insertion receipts prove.
pub struct AfterState {
    pub version: u8,
    pub organization: u128,
    pub import: u128,
    pub manifest: u128,
    pub snapshot: Snapshot,
    pub ownership: Ownership,
}

#[derive(Debug, Clone, Copy, PartialEq, Eq, Structural)]
pub enum ReceiptKind {
    TagLink,
    Value,
    /// Any other receipt kind.
    Other,
}

#[derive(Debug, Clone, Copy, PartialEq, Eq, Structural)]
pub enum ReceiptOutcome {
    Applied,
    AlreadyPresent,
    /// Any other (non-positive) outcome, such as a hold.
    Other,
}

/// Server-owned insertion receipts, assembled after the native operation settles.
pub struct Receipt {
    pub kind: ReceiptKind,
    pub source_key: Vec<u8>,
    pub target: Option<u128>,
    pub outcome: ReceiptOutcome,
}

/// The receipt reports a link or value that is present after the operation.
pub open spec fn positive(r: Receipt) -> bool {
    r.outcome == ReceiptOutcome::Applied || r.outcome == ReceiptOutcome::AlreadyPresent
}

/// A positive receipt names a target, carries a 32-byte source key, and its
/// target is present in the observed state.
pub open spec fn receipt_valid(state: State, r: Receipt) -> bool {
    &&& r.target is Some
    &&& r.source_key@.len() == 32
    &&& match r.kind {
        ReceiptKind::TagLink => state.tag_set().contains(r.target->0),
        ReceiptKind::Value => state.field_values().contains_key(r.target->0),
        ReceiptKind::Other => false,
    }
}

/// Two positive receipts claim one source key of one kind for different targets.
pub open spec fn claims_conflict(a: Receipt, b: Receipt) -> bool {
    &&& positive(a) && positive(b)
    &&& a.target is Some && b.target is Some
    &&& a.source_key@.len() == 32 && b.source_key@.len() == 32
    &&& a.kind == b.kind
    &&& alias_of(a.source_key@) == alias_of(b.source_key@)
    &&& a.target != b.target
}

/// The receipts cannot prove anything: one positive receipt is malformed or
/// names an absent target, or two positive receipts conflict.
pub open spec fn receipts_rejected(state: State, rs: Seq<Receipt>) -> bool {
    ||| exists|i: int| 0 <= i < rs.len() && positive(rs[i]) && !receipt_valid(state, #[trigger] rs[i])
    ||| exists|i: int, j: int|
        0 <= i < rs.len() && 0 <= j < rs.len() && #[trigger] claims_conflict(rs[i], rs[j])
}

/// The receipt proves an insertion of `kind` into `target`.
pub open spec fn inserted(r: Receipt, kind: ReceiptKind, target: u128) -> bool {
    r.kind == kind && r.outcome == ReceiptOutcome::Applied && r.target == Some(target)
}

/// The receipt shows alias `a` supporting the link to tag `t`.
pub open spec fn supports(r: Receipt, t: u128, a: Alias) -> bool {
    &&& r.kind == ReceiptKind::TagLink
    &&& positive(r)
    &&& r.target == Some(t)
    &&& alias_of(r.source_key@) == a
}

/// Fields owned: exactly those with an applied value insertion.
pub open spec fn owned_fields_of(rs: Seq<Receipt>) -> Set<u128> {
    Set::new(|t: u128| exists|i: int| 0 <= i < rs.len() && inserted(rs[i], ReceiptKind::Value, t))
}

/// Tags owned: exactly those with an applied link insertion, each with every
/// alias any positive receipt shows supporting it.
pub open spec fn owned_tags_of(rs: Seq<Receipt>) -> Map<u128, Set<Alias>> {
    Map::new(
        |t: u128| exists|i: int| 0 <= i < rs.len() && inserted(rs[i], ReceiptKind::TagLink, t),
        |t: u128| Set::new(|a: Alias| exists|i: int| 0 <= i < rs.len() && supports(rs[i], t, a)),
    )
}

fn is_positive(outcome: ReceiptOutcome) -> (p: bool)
    ensures
        p == (outcome == ReceiptOutcome::Applied || outcome == ReceiptOutcome::AlreadyPresent),
{
    match outcome {
        ReceiptOutcome::Applied => true,
        ReceiptOutcome::AlreadyPresent => true,
        ReceiptOutcome::Other => false,
    }
}

/// The claim of each receipt: `Some((alias, target))` for a positive one.
spec fn claims_of(rs: Seq<Receipt>, keys: Seq<Option<(Alias, u128)>>, n: int) -> bool {
    &&& keys.len() == n
    &&& forall|j: int|
        0 <= j < n ==> (#[trigger] keys[j] is Some <==> positive(rs[j])) && (positive(rs[j]) ==> keys[j]
            == Some((alias_of(rs[j].source_key@), rs[j].target->0)) && rs[j].target is Some
            && rs[j].source_key@.len() == 32)
}

/// The ownership proven by insertion receipts against the observed state.
pub fn ownership(state: &State, receipts: &Vec<Receipt>) -> (r: Result<Ownership, MigrationError>)
    requires
        state.wf(),
    ensures
        match r {
            Ok(o) => !receipts_rejected(*state, receipts@) && o.wf() && o.tag_support()
                == owned_tags_of(receipts@) && o.field_set() == owned_fields_of(receipts@),
            Err(e) => e == MigrationError::Crypto && receipts_rejected(*state, receipts@),
        },
{
    let n = receipts.len();
    let ghost rs = receipts@;
    // Every positive receipt is well formed and fits the observed state.
    let mut keys: Vec<Option<(Alias, u128)>> = Vec::new();
    let mut i: usize = 0;
    while i < n
        invariant
            n == rs.len(),
            rs == receipts@,
            state.wf(),
            i <= n,
            claims_of(rs, keys@, i as int),
            forall|j: int| 0 <= j < i && positive(rs[j]) ==> receipt_valid(*state, #[trigger] rs[j]),
        decreases n - i,
    {
        let r = &receipts[i];
        if is_positive(r.outcome) {
            let target = match r.target {
                None => {
                    return Err(MigrationError::Crypto);
                },
                Some(t) => t,
            };
            let alias = match Alias::from_bytes(r.source_key.as_slice()) {
                None => {
                    return Err(MigrationError::Crypto);
                },
                Some(a) => a,
            };
            let fits = match r.kind {
                ReceiptKind::TagLink => contains_id(&state.tags, target),
                ReceiptKind::Value => find_key(&state.fields, target).is_some(),
                ReceiptKind::Other => false,
            };
            if !fits {
                return Err(MigrationError::Crypto);
            }
            keys.push(Some((alias, target)));
        } else {
            keys.push(None);
        }
        i = i + 1;
    }
    // No source key of one kind is claimed for two targets.
    let mut a: usize = 0;
    while a < n
        invariant
            n == rs.len(),
            rs == receipts@,
            a <= n,
            claims_of(rs, keys@, n as int),
            forall|x: int, y: int|
                0 <= x < a && 0 <= y < n ==> !#[trigger] claims_conflict(rs[x], rs[y]),
        decreases n - a,
    {
        let mut b: usize = 0;
        while b < n
            invariant
                n == rs.len(),
                rs == receipts@,
                a < n,
                b <= n,
                claims_of(rs, keys@, n as int),
                forall|x: int, y: int|
                    0 <= x < a && 0 <= y < n ==> !#[trigger] claims_conflict(rs[x], rs[y]),
                forall|y: int| 0 <= y < b ==> !#[trigger] claims_conflict(rs[a as int], rs[y]),
            decreases n - b,
        {
            match (keys[a], keys[b]) {
                (Some((alias_a, target_a)), Some((alias_b, target_b))) => {
                    assert(keys@[a as int] is Some && keys@[b as int] is Some);
                    if receipts[a].kind == receipts[b].kind && alias_a == alias_b && target_a
                        != target_b {
                        assert(claims_conflict(rs[a as int], rs[b as int]));
                        return Err(MigrationError::Crypto);
                    }
                },
                _ => {
                    assert(keys@[a as int] is None || keys@[b as int] is None);
                },
            }
            b = b + 1;
        }
        a = a + 1;
    }
    proof {
        assert(!receipts_rejected(*state, rs));
    }
    // Fields: applied value insertions.
    let mut fields: Vec<u128> = Vec::new();
    let mut f: usize = 0;
    assert(fields@.to_set() =~= Set::<u128>::empty());
    while f < n
        invariant
            n == rs.len(),
            rs == receipts@,
            f <= n,
            claims_of(rs, keys@, n as int),
            fields@.no_duplicates(),
            fields@.to_set() == Set::new(
                |t: u128| exists|j: int| 0 <= j < f && inserted(rs[j], ReceiptKind::Value, t),
            ),
        decreases n - f,
    {
        let ghost before = fields@.to_set();
        if receipts[f].kind == ReceiptKind::Value && receipts[f].outcome == ReceiptOutcome::Applied {
            match keys[f] {
                Some((_, t)) => {
                    insert_id(&mut fields, t);
                    assert(inserted(rs[f as int], ReceiptKind::Value, t));
                    assert(fields@.to_set() =~= Set::new(
                        |x: u128| exists|j: int| 0 <= j < f + 1 && inserted(rs[j], ReceiptKind::Value, x),
                    ));
                },
                None => {
                    assert(keys@[f as int] is None);
                },
            }
        } else {
            assert(fields@.to_set() =~= Set::new(
                |x: u128| exists|j: int| 0 <= j < f + 1 && inserted(rs[j], ReceiptKind::Value, x),
            ));
        }
        f = f + 1;
    }
    assert(fields@.to_set() =~= owned_fields_of(rs));
    // Tags: applied link insertions, with every supporting alias.
    let mut tags: Vec<(u128, Vec<Alias>)> = Vec::new();
    let mut g: usize = 0;
    assert(own_map(tags@) =~= Map::new(
        |t: u128| exists|j: int| 0 <= j < 0 && inserted(rs[j], ReceiptKind::TagLink, t),
        |t: u128| Set::new(|x: Alias| exists|j: int| 0 <= j < rs.len() && supports(rs[j], t, x)),
    ));
    while g < n
        invariant
            n == rs.len(),
            rs == receipts@,
            g <= n,
            claims_of(rs, keys@, n as int),
            super::metadata_delta::unique_keys(tags@),
            own_map(tags@) == Map::new(
                |t: u128| exists|j: int| 0 <= j < g && inserted(rs[j], ReceiptKind::TagLink, t),
                |t: u128| Set::new(|x: Alias| exists|j: int| 0 <= j < rs.len() && supports(rs[j], t, x)),
            ),
        decreases n - g,
    {
        let ghost old_map = own_map(tags@);
        let ghost next = Map::new(
            |t: u128| exists|j: int| 0 <= j < g + 1 && inserted(rs[j], ReceiptKind::TagLink, t),
            |t: u128| Set::new(|x: Alias| exists|j: int| 0 <= j < rs.len() && supports(rs[j], t, x)),
        );
        if receipts[g].kind == ReceiptKind::TagLink && receipts[g].outcome == ReceiptOutcome::Applied {
            match keys[g] {
                Some((_, t)) => {
                    assert(inserted(rs[g as int], ReceiptKind::TagLink, t));
                    if find_key(&tags, t).is_none() {
                        let support = support_of_tag(receipts, &keys, t);
                        proof {
                            super::metadata_delta::lemma_own_map_push(tags@, (t, support));
                        }
                        tags.push((t, support));
                    }
                    assert(own_map(tags@) =~= next);
                },
                None => {
                    assert(keys@[g as int] is None);
                },
            }
        } else {
            assert(old_map =~= next);
        }
        g = g + 1;
    }
    let o = Ownership { tags, fields };
    assert(o.tag_support() =~= owned_tags_of(rs));
    Ok(o)
}

/// Every alias that a positive link receipt shows supporting tag `t`.
fn support_of_tag(receipts: &Vec<Receipt>, keys: &Vec<Option<(Alias, u128)>>, t: u128) -> (support: Vec<Alias>)
    requires
        claims_of(receipts@, keys@, receipts@.len() as int),
    ensures
        support@.to_set() == Set::new(
            |x: Alias| exists|j: int| 0 <= j < receipts@.len() && supports(receipts@[j], t, x),
        ),
{
    let ghost rs = receipts@;
    let n = receipts.len();
    let mut support: Vec<Alias> = Vec::new();
    let mut j: usize = 0;
    while j < n
        invariant
            n == rs.len(),
            rs == receipts@,
            j <= n,
            claims_of(rs, keys@, n as int),
            support@.to_set() == Set::new(
                |x: Alias| exists|k: int| 0 <= k < j && supports(rs[k], t, x),
            ),
        decreases n - j,
    {
        let ghost before = support@;
        let ghost next = Set::new(|x: Alias| exists|k: int| 0 <= k < j + 1 && supports(rs[k], t, x));
        match keys[j] {
            Some((a, target)) => {
                if receipts[j].kind == ReceiptKind::TagLink && target == t {
                    support.push(a);
                    proof {
                        before.lemma_push_to_set_commute(a);
                        assert(supports(rs[j as int], t, a));
                        assert(support@.to_set() =~= next);
                    }
                } else {
                    assert(support@.to_set() =~= next);
                }
            },
            None => {
                assert(keys@[j as int] is None);
                assert(support@.to_set() =~= next);
            },
        }
        j = j + 1;
    }
    support
}

/// Relational identifiers come from the scoped successful result and manifest,
/// after the encrypted result has been authenticated. No request may supply them.
pub struct Binding {
    pub organization: OrganizationId,
    pub import: u128,
    pub manifest: u128,
    pub person: u128,
}

/// The first reason a stored after-state cannot serve as the baseline of the
/// current Person, if any.
pub open spec fn verify_hold(stored: Option<AfterState>, binding: Binding, current: Option<Snapshot>) -> Option<Hold> {
    match stored {
        None => Some(Hold::BaselineUnproven),
        Some(p) => if p.version != 1 || p.organization != binding.organization.0 || p.import
            != binding.import || p.manifest != binding.manifest || p.snapshot.person != binding.person
            || p.snapshot.revision <= 0 || p.snapshot.head is Some {
            Some(Hold::BaselineUnproven)
        } else {
            match current {
                None => Some(Hold::TargetErased),
                Some(c) => if c.person != binding.person {
                    Some(Hold::IdentityMismatch)
                } else if c.head is Some {
                    Some(Hold::StaleHead)
                } else if p.snapshot.revision != c.revision || !p.snapshot.state.same_as(&c.state) {
                    Some(Hold::LocalChange)
                } else if !ownership_within(p.snapshot.state, p.ownership) || aliases_shared(p.ownership) {
                    Some(Hold::BaselineUnproven)
                } else {
                    None
                },
            }
        },
    }
}

pub open spec fn opt_after(p: Option<&AfterState>) -> Option<AfterState> {
    match p {
        Some(x) => Some(*x),
        None => None,
    }
}

pub open spec fn opt_current(c: Option<&Snapshot>) -> Option<Snapshot> {
    match c {
        Some(x) => Some(*x),
        None => None,
    }
}

/// The snapshot and ownership handed back are those of the stored after-state.
pub open spec fn copy_of(stored: AfterState, s: Snapshot, o: Ownership) -> bool {
    &&& s.person == stored.snapshot.person
    &&& s.revision == stored.snapshot.revision
    &&& s.head == stored.snapshot.head
    &&& s.state.wf()
    &&& s.state.tags@ == stored.snapshot.state.tags@
    &&& s.state.field_values() == stored.snapshot.state.field_values()
    &&& o.wf()
    &&& o.tag_support() == stored.ownership.tag_support()
    &&& o.fields@ == stored.ownership.fields@
}

/// Accepts a stored after-state as the baseline of the current Person, and
/// hands back its snapshot and ownership.
pub fn verify(
    stored: Option<&AfterState>,
    binding: &Binding,
    current: Option<&Snapshot>,
) -> (r: Result<(Snapshot, Ownership), Hold>)
    requires
        stored matches Some(p) ==> p.snapshot.state.wf() && p.ownership.wf(),
        current matches Some(c) ==> c.state.wf(),
    ensures
        match r {
            Ok((s, o)) => verify_hold(opt_after(stored), *binding, opt_current(current)) is None
                && stored is Some && copy_of(*stored->0, s, o),
            Err(h) => verify_hold(opt_after(stored), *binding, opt_current(current)) == Some(h),
        },
{
    let p = match stored {
        None => {
            return Err(Hold::BaselineUnproven);
        },
        Some(p) => p,
    };
    if p.version != 1 || p.organization != binding.organization.0 || p.import != binding.import
        || p.manifest != binding.manifest || p.snapshot.person != binding.person
        || p.snapshot.revision <= 0 || p.snapshot.head.is_some() {
        return Err(Hold::BaselineUnproven);
    }
    let c = match current {
        None => {
            return Err(Hold::TargetErased);
        },
        Some(c) => c,
    };
    if c.person != binding.person {
        return Err(Hold::IdentityMismatch);
    }
    if c.head.is_some() {
        return Err(Hold::StaleHead);
    }
    if p.snapshot.revision != c.revision || !p.snapshot.state.matches(&c.state) {
        return Err(Hold::LocalChange);
    }
    match verify_ownership(&p.snapshot, &p.ownership) {
        Err(h) => {
            return Err(h);
        },
        Ok(()) => {},
    }
    Ok((p.snapshot.copy(), p.ownership.copy()))
}

/// Every owned link is present in the snapshot with at least one supporting
/// alias, no alias supports two links, and every owned field has a value.
pub fn verify_ownership(snapshot: &Snapshot, ownership: &Ownership) -> (r: Result<(), Hold>)
    requires
        snapshot.state.wf(),
    ensures
        r is Ok <==> ownership_within(snapshot.state, *ownership) && !aliases_shared(*ownership),
        r matches Err(h) ==> h == Hold::BaselineUnproven,
{
    if !within(&snapshot.state, ownership) || shares(ownership) {
        return Err(Hold::BaselineUnproven);
    }
    Ok(())
}

/// The after-state of one Person, from the snapshot observed after the
/// operation and the insertion receipts of that operation.
pub fn after_state(
    organization: OrganizationId,
    import: u128,
    manifest: u128,
    snapshot: Snapshot,
    receipts: &Vec<Receipt>,
) -> (r: Result<AfterState, MigrationError>)
    requires
        snapshot.state.wf(),
    ensures
        match r {
            Ok(a) => !receipts_rejected(snapshot.state, receipts@) && a.version == 1 && a.organization
                == organization.0 && a.import == import && a.manifest == manifest && a.snapshot == snapshot
                && a.ownership.wf() && a.ownership.tag_support() == owned_tags_of(receipts@)
                && a.ownership.field_set() == owned_fields_of(receipts@),
            Err(e) => e == MigrationError::Crypto && receipts_rejected(snapshot.state, receipts@),
        },
{
    let ownership = match ownership(&snapshot.state, receipts) {
        Err(e) => {
            return Err(e);
        },
        Ok(o) => o,
    };
    Ok(AfterState { version: 1, organization: organization.0, import, manifest, snapshot, ownership })
}


/// A stored after-state that `verify` accepts for the current Person passes
/// every whole-Person check of the next proposal made from it.
pub proof fn law_verified_after_state_is_a_proposal_baseline(
    stored: AfterState,
    binding: Binding,
    current: Snapshot,
)
    requires
        verify_hold(Some(stored), binding, Some(current)) is None,
    ensures
        precheck(Some(stored.snapshot), Some(current), stored.ownership, true) is None,
{
}

/// The ownership that insertion receipts prove does not depend on the order
/// in which the receipts are listed.
pub proof fn law_receipt_order_is_irrelevant(state: State, rs: Seq<Receipt>)
    ensures
        receipts_rejected(state, rs.reverse()) == receipts_rejected(state, rs),
        owned_tags_of(rs.reverse()) == owned_tags_of(rs),
        owned_fields_of(rs.reverse()) == owned_fields_of(rs),
{
    let v = rs.reverse();
    let n = rs.len();
    assert forall|i: int| 0 <= i < n implies #[trigger] v[i] == rs[n - 1 - i] && rs[i] == v[n - 1 - i] by {}
    if receipts_rejected(state, rs) {
        if exists|i: int| 0 <= i < n && positive(rs[i]) && !receipt_valid(state, #[trigger] rs[i]) {
            let i = choose|i: int| 0 <= i < n && positive(rs[i]) && !receipt_valid(state, #[trigger] rs[i]);
            assert(v[n - 1 - i] == rs[i]);
        } else {
            let (i, j) = choose|i: int, j: int| 0 <= i < n && 0 <= j < n && #[trigger] claims_conflict(rs[i], rs[j]);
            assert(claims_conflict(v[n - 1 - i], v[n - 1 - j]));
        }
    }
    if receipts_rejected(state, v) {
        if exists|i: int| 0 <= i < n && positive(v[i]) && !receipt_valid(state, #[trigger] v[i]) {
            let i = choose|i: int| 0 <= i < n && positive(v[i]) && !receipt_valid(state, #[trigger] v[i]);
            assert(rs[n - 1 - i] == v[i]);
        } else {
            let (i, j) = choose|i: int, j: int| 0 <= i < n && 0 <= j < n && #[trigger] claims_conflict(v[i], v[j]);
            assert(claims_conflict(rs[n - 1 - i], rs[n - 1 - j]));
        }
    }
    assert forall|t: u128| #[trigger] owned_tags_of(v).contains_key(t) == owned_tags_of(rs).contains_key(t) by {
        if exists|i: int| 0 <= i < n && inserted(v[i], ReceiptKind::TagLink, t) {
            let i = choose|i: int| 0 <= i < n && inserted(v[i], ReceiptKind::TagLink, t);
            assert(inserted(rs[n - 1 - i], ReceiptKind::TagLink, t));
        }
        if exists|i: int| 0 <= i < n && inserted(rs[i], ReceiptKind::TagLink, t) {
            let i = choose|i: int| 0 <= i < n && inserted(rs[i], ReceiptKind::TagLink, t);
            assert(inserted(v[n - 1 - i], ReceiptKind::TagLink, t));
        }
    }
    assert forall|t: u128, a: Alias| owned_tags_of(rs).contains_key(t) implies #[trigger] owned_tags_of(v)[t].contains(a) == owned_tags_of(rs)[t].contains(a) by {
        assert(owned_tags_of(v).contains_key(t));
        if exists|i: int| 0 <= i < n && supports(v[i], t, a) {
            let i = choose|i: int| 0 <= i < n && supports(v[i], t, a);
            assert(supports(rs[n - 1 - i], t, a));
        }
        if exists|i: int| 0 <= i < n && supports(rs[i], t, a) {
            let i = choose|i: int| 0 <= i < n && supports(rs[i], t, a);
            assert(supports(v[n - 1 - i], t, a));
        }
    }
    assert forall|t: u128| #[trigger] owned_fields_of(v).contains(t) == owned_fields_of(rs).contains(t) by {
        if exists|i: int| 0 <= i < n && inserted(v[i], ReceiptKind::Value, t) {
            let i = choose|i: int| 0 <= i < n && inserted(v[i], ReceiptKind::Value, t);
            assert(inserted(rs[n - 1 - i], ReceiptKind::Value, t));
        }
        if exists|i: int| 0 <= i < n && inserted(rs[i], ReceiptKind::Value, t) {
            let i = choose|i: int| 0 <= i < n && inserted(rs[i], ReceiptKind::Value, t);
            assert(inserted(v[n - 1 - i], ReceiptKind::Value, t));
        }
    }
    assert forall|t: u128| owned_tags_of(rs).contains_key(t) implies owned_tags_of(v)[t] =~= owned_tags_of(rs)[t] by {}
    assert(owned_tags_of(v) =~= owned_tags_of(rs));
    assert(owned_fields_of(v) =~= owned_fields_of(rs));
}

// ---------------------------------------------------------------------------
// Discovery of a person's baseline.

fn is_word(s: &str, w: &str) -> (same: bool)
    ensures
        same == (s@ == w@),
{
    s.to_owned() == w.to_owned()
}

/// Baselines are discovered only for a metadata plan in its mappings or
/// classify phase.
pub fn discovery_open(family: &str, phase: &str) -> (r: Result<(), MigrationError>)
    ensures
        r is Ok <==> (family@ == "metadata"@ && (phase@ == "mappings"@ || phase@ == "classify"@)),
        r matches Err(e) ==> e == MigrationError::Conflict,
{
    if is_word(family, "metadata") && (is_word(phase, "mappings") || is_word(phase, "classify")) {
        Ok(())
    } else {
        Err(MigrationError::Conflict)
    }
}

/// The latest earlier import result of the person, as found for discovery.
pub struct PriorResult {
    /// State of the import that committed the result.
    pub owner_state: String,
    /// When that import completed (or, if cancelled, last changed).
    pub terminal_at: Option<Instant>,
    pub disposition: String,
}

/// A prior result proves first coverage only when its import ended
/// (completed or cancelled) no later than the bundle was created; a held
/// result proves no baseline.
pub open spec fn prior_result_hold(prior: Option<PriorResult>, cutoff: Instant) -> Option<Hold> {
    match prior {
        None => Some(Hold::FirstCoverageRequired),
        Some(r) => if !(r.owner_state@ == "completed"@ || r.owner_state@ == "cancelled"@) || !(
        r.terminal_at matches Some(at) && !earlier(cutoff, at)) {
            Some(Hold::FirstCoverageRequired)
        } else if r.disposition@ == "held"@ {
            Some(Hold::BaselineUnproven)
        } else {
            None
        },
    }
}

pub fn prior_result_check(prior: Option<&PriorResult>, cutoff: Instant) -> (h: Option<Hold>)
    ensures
        h == prior_result_hold(
            match prior {
                Some(r) => Some(*r),
                None => None,
            },
            cutoff,
        ),
{
    let r = match prior {
        None => return Some(Hold::FirstCoverageRequired),
        Some(r) => r,
    };
    let ended = is_word(r.owner_state.as_str(), "completed") || is_word(r.owner_state.as_str(), "cancelled");
    let in_time = match r.terminal_at {
        Some(at) => !(cutoff.seconds < at.seconds || (cutoff.seconds == at.seconds && cutoff.nanos < at.nanos)),
        None => false,
    };
    if !ended || !in_time {
        Some(Hold::FirstCoverageRequired)
    } else if is_word(r.disposition.as_str(), "held") {
        Some(Hold::BaselineUnproven)
    } else {
        None
    }
}

/// A person whose imported identity no longer leads to a live person row is
/// held as erased.
pub fn liveness_hold(live: bool) -> (h: Option<Hold>)
    ensures
        h == if live {
            None
        } else {
            Some(Hold::TargetErased)
        },
{
    if live {
        None
    } else {
        Some(Hold::TargetErased)
    }
}

} // verus!
