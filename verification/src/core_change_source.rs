//! Lossless, content-free comparison data. Source bodies never implement Debug.
//!
//! Sets and maps are carried as vectors without repeated keys; their meaning
//! is the set of their elements or the map from key to value.
use crate::family_refresh::model::bytes_equal;
use crate::snapshot_source::Stream;
use vstd::prelude::*;
use vstd::string::StringSliceAdditionalSpecFns;

verus! {

pub const ENGINE: &'static str = "fub-core-change-v1";

/// Largest raw source payload compared.
pub const MAX_RAW: usize = 16777216;

/// Most records one payload may contribute.
pub const MAX_OBSERVATIONS: usize = 100;

/// Most evidence references one group keeps.
pub const MAX_EVIDENCE: usize = 16;

/// A source family of the core change report.
#[derive(Debug, Clone, Copy, PartialEq, Eq, Structural)]
pub enum ChangeFamily {
    People,
    Users,
    Stages,
    CustomFields,
    Notes,
    Tasks,
}

pub open spec fn change_family_name(family: ChangeFamily) -> Seq<char> {
    match family {
        ChangeFamily::People => "people"@,
        ChangeFamily::Users => "users"@,
        ChangeFamily::Stages => "stages"@,
        ChangeFamily::CustomFields => "custom_fields"@,
        ChangeFamily::Notes => "notes"@,
        ChangeFamily::Tasks => "tasks"@,
    }
}

impl ChangeFamily {
    pub fn as_str(self) -> (name: &'static str)
        ensures
            name@ == change_family_name(self),
    {
        match self {
            ChangeFamily::People => "people",
            ChangeFamily::Users => "users",
            ChangeFamily::Stages => "stages",
            ChangeFamily::CustomFields => "custom_fields",
            ChangeFamily::Notes => "notes",
            ChangeFamily::Tasks => "tasks",
        }
    }
}

/// The source family a stream belongs to.
pub open spec fn stream_family(stream: Stream) -> ChangeFamily {
    match stream {
        Stream::People => ChangeFamily::People,
        Stream::Users => ChangeFamily::Users,
        Stream::Stages => ChangeFamily::Stages,
        Stream::CustomFields => ChangeFamily::CustomFields,
        Stream::Notes | Stream::NoteDetail => ChangeFamily::Notes,
        Stream::TasksOpen | Stream::TasksCompleted => ChangeFamily::Tasks,
    }
}

pub fn family_of(stream: Stream) -> (family: ChangeFamily)
    ensures
        family == stream_family(stream),
{
    match stream {
        Stream::People => ChangeFamily::People,
        Stream::Users => ChangeFamily::Users,
        Stream::Stages => ChangeFamily::Stages,
        Stream::CustomFields => ChangeFamily::CustomFields,
        Stream::Notes | Stream::NoteDetail => ChangeFamily::Notes,
        Stream::TasksOpen | Stream::TasksCompleted => ChangeFamily::Tasks,
    }
}

/// The comparison result of a group or of one of its components.
#[derive(Debug, Clone, Copy, PartialEq, Eq, Structural)]
pub enum Disposition {
    Unchanged,
    Changed,
    NewlyObserved,
    NotSeenAgain,
    Unresolved,
}

pub open spec fn disposition_name(d: Disposition) -> Seq<char> {
    match d {
        Disposition::Unchanged => "unchanged"@,
        Disposition::Changed => "changed"@,
        Disposition::NewlyObserved => "newly_observed"@,
        Disposition::NotSeenAgain => "not_seen_again"@,
        Disposition::Unresolved => "unresolved"@,
    }
}

impl Disposition {
    pub fn as_str(self) -> (name: &'static str)
        ensures
            name@ == disposition_name(self),
    {
        match self {
            Disposition::Unchanged => "unchanged",
            Disposition::Changed => "changed",
            Disposition::NewlyObserved => "newly_observed",
            Disposition::NotSeenAgain => "not_seen_again",
            Disposition::Unresolved => "unresolved",
        }
    }
}

/// The content-free category a source property belongs to.
#[derive(Debug, Clone, Copy, PartialEq, Eq, Structural)]
pub enum Category {
    ContactInformation,
    AssignmentStage,
    EmbeddedTags,
    CustomFields,
    NoteContent,
    TaskStatus,
    TaskDueDate,
    Identity,
    OtherProperties,
}

pub open spec fn category_name(c: Category) -> Seq<char> {
    match c {
        Category::ContactInformation => "contact_information"@,
        Category::AssignmentStage => "assignment_stage"@,
        Category::EmbeddedTags => "embedded_tags"@,
        Category::CustomFields => "custom_fields"@,
        Category::NoteContent => "note_content"@,
        Category::TaskStatus => "task_status"@,
        Category::TaskDueDate => "task_due_date"@,
        Category::Identity => "identity"@,
        Category::OtherProperties => "other_properties"@,
    }
}

impl Category {
    pub fn as_str(self) -> (name: &'static str)
        ensures
            name@ == category_name(self),
    {
        match self {
            Category::ContactInformation => "contact_information",
            Category::AssignmentStage => "assignment_stage",
            Category::EmbeddedTags => "embedded_tags",
            Category::CustomFields => "custom_fields",
            Category::NoteContent => "note_content",
            Category::TaskStatus => "task_status",
            Category::TaskDueDate => "task_due_date",
            Category::Identity => "identity",
            Category::OtherProperties => "other_properties",
        }
    }
}

/// The property key (as UTF-8 bytes) is exactly `name`.
pub open spec fn named(key: Seq<u8>, name: &str) -> bool {
    key == name.spec_bytes()
}

/// The property key begins with `prefix`.
pub open spec fn prefixed(key: Seq<u8>, prefix: &str) -> bool {
    key.len() >= prefix.spec_bytes().len() && key.subrange(0, prefix.spec_bytes().len() as int)
        == prefix.spec_bytes()
}

/// The category of property `key` of a record of `family`, first rule first.
pub open spec fn category_of(family: ChangeFamily, key: Seq<u8>) -> Category {
    if family == ChangeFamily::People && (named(key, "emails") || named(key, "phones") || named(
        key,
        "addresses",
    ) || named(key, "firstName") || named(key, "lastName") || named(key, "name")) {
        Category::ContactInformation
    } else if family == ChangeFamily::People && (named(key, "stage") || named(key, "stageId")
        || named(key, "assignedUserId") || named(key, "assignedPondId")) {
        Category::AssignmentStage
    } else if family == ChangeFamily::People && named(key, "tags") {
        Category::EmbeddedTags
    } else if family == ChangeFamily::People && prefixed(key, "custom") {
        Category::CustomFields
    } else if family == ChangeFamily::CustomFields {
        Category::CustomFields
    } else if family == ChangeFamily::Notes && (named(key, "body") || named(key, "subject")
        || named(key, "isHtml") || named(key, "replies") || named(key, "reactions") || named(
        key,
        "showContent",
    ) || named(key, "contentInaccessible") || named(key, "isContentAccessible")) {
        Category::NoteContent
    } else if family == ChangeFamily::Tasks && (named(key, "isCompleted") || named(key, "completed")) {
        Category::TaskStatus
    } else if family == ChangeFamily::Tasks && (named(key, "dueDate") || named(key, "dueDateTime")) {
        Category::TaskDueDate
    } else if named(key, "id") {
        Category::Identity
    } else {
        Category::OtherProperties
    }
}

fn is_named(key: &[u8], name: &str) -> (is: bool)
    ensures
        is == named(key@, name),
{
    bytes_equal(key, name.as_bytes())
}

fn is_prefixed(key: &[u8], prefix: &str) -> (is: bool)
    ensures
        is == prefixed(key@, prefix),
{
    let p = prefix.as_bytes();
    if key.len() < p.len() {
        return false;
    }
    let mut i: usize = 0;
    while i < p.len()
        invariant
            p@ == prefix.spec_bytes(),
            p@.len() <= key@.len(),
            i <= p@.len(),
            forall|j: int| 0 <= j < i ==> key@[j] == p@[j],
        decreases p.len() - i,
    {
        if key[i] != p[i] {
            assert(key@.subrange(0, p@.len() as int)[i as int] != p@[i as int]);
            return false;
        }
        i = i + 1;
    }
    assert(key@.subrange(0, p@.len() as int) =~= p@);
    true
}

/// The category of a property of a record of `family`.
pub fn category(family: ChangeFamily, key: &str) -> (c: Category)
    ensures
        c == category_of(family, key.spec_bytes()),
{
    let k = key.as_bytes();
    let people = family == ChangeFamily::People;
    if people && (is_named(k, "emails") || is_named(k, "phones") || is_named(k, "addresses")
        || is_named(k, "firstName") || is_named(k, "lastName") || is_named(k, "name")) {
        Category::ContactInformation
    } else if people && (is_named(k, "stage") || is_named(k, "stageId") || is_named(
        k,
        "assignedUserId",
    ) || is_named(k, "assignedPondId")) {
        Category::AssignmentStage
    } else if people && is_named(k, "tags") {
        Category::EmbeddedTags
    } else if people && is_prefixed(k, "custom") {
        Category::CustomFields
    } else if family == ChangeFamily::CustomFields {
        Category::CustomFields
    } else if family == ChangeFamily::Notes && (is_named(k, "body") || is_named(k, "subject")
        || is_named(k, "isHtml") || is_named(k, "replies") || is_named(k, "reactions") || is_named(
        k,
        "showContent",
    ) || is_named(k, "contentInaccessible") || is_named(k, "isContentAccessible")) {
        Category::NoteContent
    } else if family == ChangeFamily::Tasks && (is_named(k, "isCompleted") || is_named(
        k,
        "completed",
    )) {
        Category::TaskStatus
    } else if family == ChangeFamily::Tasks && (is_named(k, "dueDate") || is_named(
        k,
        "dueDateTime",
    )) {
        Category::TaskDueDate
    } else if is_named(k, "id") {
        Category::Identity
    } else {
        Category::OtherProperties
    }
}


// ---------------------------------------------------------------------------
// Keyed vectors.

/// Some entry has key `k`.
pub open spec fn has_first<K, T>(s: Seq<(K, T)>, k: K) -> bool {
    exists|i: int| 0 <= i < s.len() && s[i].0 == k
}

/// The position of key `k` in a keyed vector without repeated keys.
pub open spec fn first_index<K, T>(s: Seq<(K, T)>, k: K) -> int {
    choose|i: int| 0 <= i < s.len() && s[i].0 == k
}

pub open spec fn unique_firsts<K, T>(s: Seq<(K, T)>) -> bool {
    forall|i: int, j: int| 0 <= i < s.len() && 0 <= j < s.len() && i != j ==> s[i].0 != s[j].0
}

proof fn lemma_first_index<K, T>(s: Seq<(K, T)>, i: int)
    requires
        unique_firsts(s),
        0 <= i < s.len(),
    ensures
        has_first(s, s[i].0),
        first_index(s, s[i].0) == i,
{
    assert(has_first(s, s[i].0));
}

/// Replacing the value of one entry keeps every other key where it was.
proof fn lemma_replace_entry<K, T>(s: Seq<(K, T)>, i: int, v: T)
    requires
        unique_firsts(s),
        0 <= i < s.len(),
    ensures
        unique_firsts(s.update(i, (s[i].0, v))),
        forall|k: K| has_first(s.update(i, (s[i].0, v)), k) <==> has_first(s, k),
        forall|k: K|
            has_first(s, k) ==> first_index(s.update(i, (s[i].0, v)), k) == first_index(s, k),
{
    let r = s.update(i, (s[i].0, v));
    assert forall|k: K| has_first(r, k) <==> has_first(s, k) by {
        if has_first(r, k) {
            let j = choose|j: int| 0 <= j < r.len() && r[j].0 == k;
            assert(s[j].0 == k);
        }
        if has_first(s, k) {
            let j = choose|j: int| 0 <= j < s.len() && s[j].0 == k;
            assert(r[j].0 == k);
        }
    }
    assert forall|k: K| has_first(s, k) implies first_index(r, k) == first_index(s, k) by {
        let m = first_index(s, k);
        assert(r[m].0 == k);
        lemma_first_index(r, m);
    }
}

/// Appending an entry with a new key keeps every other key where it was.
proof fn lemma_append_entry<K, T>(s: Seq<(K, T)>, e: (K, T))
    requires
        unique_firsts(s),
        !has_first(s, e.0),
    ensures
        unique_firsts(s.push(e)),
        forall|k: K| has_first(s.push(e), k) <==> (has_first(s, k) || k == e.0),
        first_index(s.push(e), e.0) == s.len(),
        forall|k: K| has_first(s, k) ==> first_index(s.push(e), k) == first_index(s, k),
{
    let r = s.push(e);
    assert(r[s.len() as int].0 == e.0);
    assert forall|k: K| has_first(r, k) <==> (has_first(s, k) || k == e.0) by {
        if has_first(r, k) {
            let j = choose|j: int| 0 <= j < r.len() && r[j].0 == k;
            if j < s.len() {
                assert(s[j].0 == k);
            }
        }
        if has_first(s, k) {
            let j = choose|j: int| 0 <= j < s.len() && s[j].0 == k;
            assert(r[j].0 == k);
        }
    }
    lemma_first_index(r, s.len() as int);
    assert forall|k: K| has_first(s, k) implies first_index(r, k) == first_index(s, k) by {
        let m = first_index(s, k);
        assert(r[m].0 == k);
        lemma_first_index(r, m);
    }
}

// ---------------------------------------------------------------------------
// Observations and groups.

/// Content-free data of one source record: keyed digests of its canonical
/// form and of each category of its properties.
pub struct Observation {
    pub source_id: Option<String>,
    pub semantic: [u8; 32],
    pub categories: Vec<(Category, [u8; 32])>,
    pub reasons: Vec<String>,
}

impl Observation {
    pub open spec fn wf(&self) -> bool {
        unique_firsts(self.categories@)
    }
}

/// Where an observation was retained.
pub struct Evidence {
    pub snapshot_id: u128,
    pub capture_id: u128,
    pub ordinal: i32,
    pub side: String,
    pub stream: Stream,
}

/// What one side (baseline or newer) observed of one representation.
pub struct Side {
    pub semantic: [u8; 32],
    pub categories: Vec<(Category, [u8; 32])>,
    pub count: u64,
    pub equal_repeats: u64,
    pub conflict: bool,
    pub streams: Vec<Stream>,
}

/// The baseline and newer observations of one representation.
pub struct Sides {
    pub baseline: Option<Side>,
    pub newer: Option<Side>,
}

/// Every observation of one source record, by representation and side.
pub struct Group {
    pub components: Vec<(Stream, Sides)>,
    pub reasons: Vec<String>,
    pub evidence: Vec<Evidence>,
}

pub struct SideView {
    pub semantic: Seq<u8>,
    pub categories: Map<Category, Seq<u8>>,
    pub count: nat,
    pub equal_repeats: nat,
    pub conflict: bool,
    pub streams: Set<Stream>,
}

/// The category digests of a digest list.
pub open spec fn digest_map(cats: Seq<(Category, [u8; 32])>) -> Map<Category, Seq<u8>> {
    Map::new(|c: Category| has_first(cats, c), |c: Category| cats[first_index(cats, c)].1@)
}

pub open spec fn side_view(s: Side) -> SideView {
    SideView {
        semantic: s.semantic@,
        categories: digest_map(s.categories@),
        count: s.count as nat,
        equal_repeats: s.equal_repeats as nat,
        conflict: s.conflict,
        streams: s.streams@.to_set(),
    }
}

pub open spec fn opt_side_view(s: Option<Side>) -> Option<SideView> {
    match s {
        Some(x) => Some(side_view(x)),
        None => None,
    }
}

pub open spec fn sides_view(s: Sides) -> (Option<SideView>, Option<SideView>) {
    (opt_side_view(s.baseline), opt_side_view(s.newer))
}

/// The components of a group, by representation.
pub open spec fn group_map(comps: Seq<(Stream, Sides)>) -> Map<Stream, (Option<SideView>, Option<SideView>)> {
    Map::new(|k: Stream| has_first(comps, k), |k: Stream| sides_view(comps[first_index(comps, k)].1))
}

/// The set of reason names in a reason list.
pub open spec fn reason_set(v: Seq<String>) -> Set<Seq<char>> {
    Set::new(|r: Seq<char>| exists|i: int| 0 <= i < v.len() && v[i]@ == r)
}

pub open spec fn distinct_reasons(v: Seq<String>) -> bool {
    forall|i: int, j: int| 0 <= i < v.len() && 0 <= j < v.len() && i != j ==> v[i]@ != v[j]@
}

impl Side {
    pub open spec fn wf(&self) -> bool {
        unique_firsts(self.categories@) && self.streams@.no_duplicates()
    }
}

pub open spec fn opt_side_wf(s: Option<Side>) -> bool {
    match s {
        Some(x) => x.wf(),
        None => true,
    }
}

/// The side at index 0 (baseline) or 1 (newer).
pub open spec fn side_at(s: Sides, side: int) -> Option<Side> {
    if side == 0 {
        s.baseline
    } else {
        s.newer
    }
}

impl Group {
    pub open spec fn wf(&self) -> bool {
        &&& unique_firsts(self.components@)
        &&& distinct_reasons(self.reasons@)
        &&& forall|i: int|
            0 <= i < self.components@.len() ==> opt_side_wf(#[trigger] self.components@[i].1.baseline)
                && opt_side_wf(self.components@[i].1.newer)
    }
}

/// One more observation folded into a side.
pub open spec fn added_side(prev: Option<SideView>, obs: Observation, stream: Stream, repeat: bool) -> SideView {
    match prev {
        Some(e) => SideView {
            semantic: e.semantic,
            categories: e.categories,
            count: e.count + 1,
            equal_repeats: e.equal_repeats + if repeat {
                1nat
            } else {
                0nat
            },
            conflict: e.conflict || e.semantic != obs.semantic@,
            streams: e.streams.insert(stream),
        },
        None => SideView {
            semantic: obs.semantic@,
            categories: digest_map(obs.categories@),
            count: 1,
            equal_repeats: 0,
            conflict: false,
            streams: set![stream],
        },
    }
}

/// The components after one observation was added to one side of `rep`.
pub open spec fn added_components(
    before: Map<Stream, (Option<SideView>, Option<SideView>)>,
    side: int,
    rep: Stream,
    obs: Observation,
    stream: Stream,
    repeat: bool,
) -> Map<Stream, (Option<SideView>, Option<SideView>)> {
    let prev = if before.contains_key(rep) {
        before[rep]
    } else {
        (None, None)
    };
    let grown = if side == 0 {
        (Some(added_side(prev.0, obs, stream, repeat)), prev.1)
    } else {
        (prev.0, Some(added_side(prev.1, obs, stream, repeat)))
    };
    before.insert(rep, grown)
}

/// Folding an observation into one side of a representation counts it once
/// there and changes nothing else: the other side and every other
/// representation keep what they observed; a conflict once seen stays; and an
/// observation whose canonical digest differs from the one the side first saw
/// marks the side conflicted.
pub proof fn law_an_added_observation_is_counted_once(
    before: Map<Stream, (Option<SideView>, Option<SideView>)>,
    side: int,
    rep: Stream,
    obs: Observation,
    stream: Stream,
    repeat: bool,
)
    requires
        side == 0 || side == 1,
    ensures
        ({
            let after = added_components(before, side, rep, obs, stream, repeat);
            let prev = if before.contains_key(rep) {
                before[rep]
            } else {
                (None, None)
            };
            let was = if side == 0 {
                prev.0
            } else {
                prev.1
            };
            let now = if side == 0 {
                after[rep].0
            } else {
                after[rep].1
            };
            &&& after.dom() == before.dom().insert(rep)
            &&& forall|k: Stream| k != rep && #[trigger] before.contains_key(k) ==> after[k] == before[k]
            &&& side == 0 ==> after[rep].1 == prev.1
            &&& side == 1 ==> after[rep].0 == prev.0
            &&& now is Some
            &&& now->0.count == (match was {
                Some(w) => w.count,
                None => 0,
            }) + 1
            &&& now->0.streams.contains(stream)
            &&& (was matches Some(w) && (w.conflict || w.semantic != obs.semantic@)) ==> now->0.conflict
            &&& was is None ==> !now->0.conflict && now->0.semantic == obs.semantic@
        }),
{
    let after = added_components(before, side, rep, obs, stream, repeat);
    assert(after.dom() =~= before.dom().insert(rep));
}

/// No count or repeat counter of the group is at its maximum.
pub open spec fn counters_below_max(comps: Seq<(Stream, Sides)>) -> bool {
    forall|i: int|
        0 <= i < comps.len() ==> (#[trigger] comps[i].1.baseline matches Some(b) ==> b.count < u64::MAX
            && b.equal_repeats < u64::MAX) && (comps[i].1.newer matches Some(n) ==> n.count < u64::MAX
            && n.equal_repeats < u64::MAX)
}

fn contains_stream(v: &Vec<Stream>, x: Stream) -> (found: bool)
    ensures
        found == v@.contains(x),
{
    let mut i: usize = 0;
    while i < v.len()
        invariant
            i <= v@.len(),
            forall|j: int| 0 <= j < i ==> v@[j] != x,
        decreases v.len() - i,
    {
        if v[i] == x {
            assert(v@[i as int] == x);
            return true;
        }
        i = i + 1;
    }
    false
}

fn insert_stream(v: &mut Vec<Stream>, x: Stream)
    requires
        old(v)@.no_duplicates(),
    ensures
        final(v)@.no_duplicates(),
        final(v)@.to_set() == old(v)@.to_set().insert(x),
{
    if !contains_stream(v, x) {
        let ghost before = v@;
        v.push(x);
        proof {
            before.lemma_push_to_set_commute(x);
            assert forall|a: int, b: int| 0 <= a < v@.len() && 0 <= b < v@.len() && a != b implies v@[a]
                != v@[b] by {
                if a == before.len() {
                    assert(before.contains(v@[b]));
                }
                if b == before.len() {
                    assert(before.contains(v@[a]));
                }
            }
        }
    } else {
        assert(v@.to_set() =~= v@.to_set().insert(x));
    }
}

/// Adds a reason name unless one with the same text is present.
fn insert_reason(v: &mut Vec<String>, r: &String)
    requires
        distinct_reasons(old(v)@),
    ensures
        distinct_reasons(final(v)@),
        reason_set(final(v)@) == reason_set(old(v)@).insert(r@),
{
    let mut i: usize = 0;
    while i < v.len()
        invariant
            i <= v@.len(),
            v@ == old(v)@,
            distinct_reasons(v@),
            forall|j: int| 0 <= j < i ==> v@[j]@ != r@,
        decreases v.len() - i,
    {
        if v[i].eq(r) {
            assert(reason_set(v@) =~= reason_set(v@).insert(r@));
            return;
        }
        i = i + 1;
    }
    let ghost before = v@;
    v.push(r.clone());
    assert(v@[before.len() as int]@ == r@);
    assert(reason_set(v@) =~= reason_set(before).insert(r@)) by {
        assert forall|x: Seq<char>| reason_set(v@).contains(x) <==> reason_set(before).insert(r@).contains(x) by {
            if reason_set(v@).contains(x) {
                let j = choose|j: int| 0 <= j < v@.len() && v@[j]@ == x;
                if j < before.len() {
                    assert(before[j]@ == x);
                }
            }
            if reason_set(before).contains(x) {
                let j = choose|j: int| 0 <= j < before.len() && before[j]@ == x;
                assert(v@[j]@ == x);
            }
        }
    }
}

/// Copies a list of category digests.
fn copy_digests(v: &Vec<(Category, [u8; 32])>) -> (copy: Vec<(Category, [u8; 32])>)
    ensures
        copy@ == v@,
{
    let mut copy: Vec<(Category, [u8; 32])> = Vec::new();
    let mut i: usize = 0;
    while i < v.len()
        invariant
            i <= v@.len(),
            copy@ == v@.take(i as int),
        decreases v.len() - i,
    {
        copy.push(v[i]);
        i = i + 1;
        assert(copy@ =~= v@.take(i as int));
    }
    assert(copy@ =~= v@);
    copy
}

fn digest_equal(a: &[u8; 32], b: &[u8; 32]) -> (equal: bool)
    ensures
        equal == (a@ == b@),
{
    bytes_equal(a.as_slice(), b.as_slice())
}

/// One more observation folded into a side, or a new side.
fn grow(prev: Option<Side>, obs: &Observation, stream: Stream, repeat: bool) -> (side: Side)
    requires
        opt_side_wf(prev),
        obs.wf(),
        prev matches Some(p) ==> p.count < u64::MAX && p.equal_repeats < u64::MAX,
    ensures
        side.wf(),
        side_view(side) == added_side(opt_side_view(prev), *obs, stream, repeat),
{
    match prev {
        Some(e) => {
            let same = digest_equal(&e.semantic, &obs.semantic);
            let mut streams = e.streams;
            insert_stream(&mut streams, stream);
            let side = Side {
                semantic: e.semantic,
                categories: e.categories,
                count: e.count + 1,
                equal_repeats: if repeat {
                    e.equal_repeats + 1
                } else {
                    e.equal_repeats
                },
                conflict: e.conflict || !same,
                streams,
            };
            assert(side_view(side) =~= added_side(opt_side_view(prev), *obs, stream, repeat));
            side
        },
        None => {
            let streams = vec![stream];
            let side = Side {
                semantic: obs.semantic,
                categories: copy_digests(&obs.categories),
                count: 1,
                equal_repeats: 0,
                conflict: false,
                streams,
            };
            assert(streams@.to_set() =~= set![stream]) by {
                assert(streams@ =~= seq![stream]);
                assert(streams@.contains(stream));
            }
            assert(side_view(side) =~= added_side(opt_side_view(prev), *obs, stream, repeat));
            side
        },
    }
}

fn find_component(comps: &Vec<(Stream, Sides)>, rep: Stream) -> (found: Option<usize>)
    ensures
        found is None <==> !has_first(comps@, rep),
        found matches Some(k) ==> k < comps@.len() && comps@[k as int].0 == rep,
{
    let mut k: usize = 0;
    while k < comps.len()
        invariant
            k <= comps@.len(),
            forall|j: int| 0 <= j < k ==> comps@[j].0 != rep,
        decreases comps.len() - k,
    {
        if comps[k].0 == rep {
            return Some(k);
        }
        k = k + 1;
    }
    None
}

/// Replacing one component changes a side's total by the difference of that
/// component's counts.
proof fn lemma_observed_update(comps: Seq<(Stream, Sides)>, i: int, e: (Stream, Sides), side: int)
    requires
        0 <= i < comps.len(),
    ensures
        observed_total(comps.update(i, e), side) + side_count(comps[i].1, side) == observed_total(comps, side)
            + side_count(e.1, side),
    decreases comps.len(),
{
    let u = comps.update(i, e);
    if i < comps.len() - 1 {
        lemma_observed_update(comps.drop_last(), i, e, side);
        assert(u.drop_last() =~= comps.drop_last().update(i, e));
    } else {
        assert(u.drop_last() =~= comps.drop_last());
    }
}

proof fn lemma_observed_push(comps: Seq<(Stream, Sides)>, e: (Stream, Sides), side: int)
    ensures
        observed_total(comps.push(e), side) == observed_total(comps, side) + side_count(e.1, side),
{
    assert(comps.push(e).drop_last() =~= comps);
}

impl Group {
    /// Folds one observation of representation `rep` into side 0 (baseline)
    /// or 1 (newer), remembering its reasons and, while fewer than the
    /// evidence limit are kept, where it was retained.
    pub fn add(
        &mut self,
        side: usize,
        rep: Stream,
        observation: &Observation,
        evidence: Evidence,
        repeat: bool,
    )
        requires
            side < 2,
            old(self).wf(),
            observation.wf(),
            counters_below_max(old(self).components@),
        ensures
            final(self).wf(),
            group_map(final(self).components@) == added_components(
                group_map(old(self).components@),
                side as int,
                rep,
                *observation,
                evidence.stream,
                repeat,
            ),
            reason_set(final(self).reasons@) == reason_set(old(self).reasons@).union(
                reason_set(observation.reasons@),
            ),
            final(self).evidence@ == if old(self).evidence@.len() < MAX_EVIDENCE {
                old(self).evidence@.push(evidence)
            } else {
                old(self).evidence@
            },
            observed_total(final(self).components@, side as int) == observed_total(
                old(self).components@,
                side as int,
            ) + 1,
            observed_total(final(self).components@, 1 - side as int) == observed_total(
                old(self).components@,
                1 - side as int,
            ),
            any_conflict(old(self).components@) ==> any_conflict(final(self).components@),
    {
        let ghost reasons0 = reason_set(self.reasons@);
        let mut i: usize = 0;
        assert(reasons0.union(reason_set(observation.reasons@.take(0))) =~= reasons0);
        while i < observation.reasons.len()
            invariant
                i <= observation.reasons@.len(),
                self.components@ == old(self).components@,
                self.evidence@ == old(self).evidence@,
                distinct_reasons(self.reasons@),
                reason_set(self.reasons@) == reasons0.union(reason_set(observation.reasons@.take(i as int))),
            decreases observation.reasons.len() - i,
        {
            insert_reason(&mut self.reasons, &observation.reasons[i]);
            proof {
                let t0 = observation.reasons@.take(i as int);
                let t1 = observation.reasons@.take(i as int + 1);
                assert(reason_set(t1) =~= reason_set(t0).insert(observation.reasons@[i as int]@)) by {
                    assert forall|x: Seq<char>| reason_set(t1).contains(x) <==> reason_set(t0).insert(
                        observation.reasons@[i as int]@,
                    ).contains(x) by {
                        if reason_set(t1).contains(x) {
                            let j = choose|j: int| 0 <= j < t1.len() && t1[j]@ == x;
                            if j < i {
                                assert(t0[j]@ == x);
                            }
                        }
                        if reason_set(t0).contains(x) {
                            let j = choose|j: int| 0 <= j < t0.len() && t0[j]@ == x;
                            assert(t1[j]@ == x);
                        }
                        if x == observation.reasons@[i as int]@ {
                            assert(t1[i as int]@ == x);
                        }
                    }
                }
                assert(reason_set(self.reasons@) =~= reasons0.union(reason_set(t1)));
            }
            i = i + 1;
        }
        assert(observation.reasons@.take(observation.reasons@.len() as int) =~= observation.reasons@);
        let ghost map0 = group_map(self.components@);
        let stream = evidence.stream;
        let found = find_component(&self.components, rep);
        if let Some(k) = found {
            let ghost comps = self.components@;
            proof {
                lemma_first_index(comps, k as int);
                assert(map0.contains_key(rep));
            }
            assert(opt_side_wf(comps[k as int].1.baseline) && opt_side_wf(comps[k as int].1.newer));
            assert(counters_below_max(comps) && comps[k as int].1.baseline == comps[k as int].1.baseline);
            let (r, sides) = self.components.remove(k);
            let Sides { baseline, newer } = sides;
            let entry = if side == 0 {
                let grown = grow(baseline, observation, stream, repeat);
                Sides { baseline: Some(grown), newer }
            } else {
                let grown = grow(newer, observation, stream, repeat);
                Sides { baseline, newer: Some(grown) }
            };
            self.components.insert(k, (r, entry));
            proof {
                assert(self.components@ =~= comps.update(k as int, (comps[k as int].0, entry)));
                lemma_replace_entry(comps, k as int, entry);
                lemma_observed_update(comps, k as int, (comps[k as int].0, entry), 0);
                lemma_observed_update(comps, k as int, (comps[k as int].0, entry), 1);
                if any_conflict(comps) {
                    let j = choose|j: int| 0 <= j < comps.len() && sides_conflicted(#[trigger] comps[j].1);
                    assert(sides_conflicted(self.components@[j].1));
                }
                assert(group_map(self.components@) =~= added_components(
                    map0,
                    side as int,
                    rep,
                    *observation,
                    stream,
                    repeat,
                ));
            }
        } else {
            let ghost comps = self.components@;
            let entry = if side == 0 {
                Sides { baseline: Some(grow(None, observation, stream, repeat)), newer: None }
            } else {
                Sides { baseline: None, newer: Some(grow(None, observation, stream, repeat)) }
            };
            proof {
                assert(!has_first(comps, rep));
                lemma_append_entry(comps, (rep, entry));
                lemma_observed_push(comps, (rep, entry), 0);
                lemma_observed_push(comps, (rep, entry), 1);
            }
            self.components.push((rep, entry));
            proof {
                if any_conflict(comps) {
                    let j = choose|j: int| 0 <= j < comps.len() && sides_conflicted(#[trigger] comps[j].1);
                    assert(sides_conflicted(self.components@[j].1));
                }
                assert(group_map(self.components@) =~= added_components(
                    map0,
                    side as int,
                    rep,
                    *observation,
                    stream,
                    repeat,
                ));
            }
        }
        if self.evidence.len() < MAX_EVIDENCE {
            self.evidence.push(evidence);
        }
    }
}


// ---------------------------------------------------------------------------
// Totals of a group.

pub open spec fn side_count(s: Sides, side: int) -> nat {
    match side_at(s, side) {
        Some(x) => x.count as nat,
        None => 0,
    }
}

/// Observations of one side over all components.
pub open spec fn observed_total(comps: Seq<(Stream, Sides)>, side: int) -> nat
    decreases comps.len(),
{
    if comps.len() == 0 {
        0
    } else {
        observed_total(comps.drop_last(), side) + side_count(comps.last().1, side)
    }
}

pub open spec fn repeat_count(s: Sides) -> nat {
    (match s.baseline {
        Some(x) => x.equal_repeats as nat,
        None => 0nat,
    }) + (match s.newer {
        Some(x) => x.equal_repeats as nat,
        None => 0nat,
    })
}

/// Equal repeats over both sides of all components.
pub open spec fn repeat_total(comps: Seq<(Stream, Sides)>) -> nat
    decreases comps.len(),
{
    if comps.len() == 0 {
        0
    } else {
        repeat_total(comps.drop_last()) + repeat_count(comps.last().1)
    }
}

pub open spec fn sides_conflicted(s: Sides) -> bool {
    (s.baseline matches Some(b) && b.conflict) || (s.newer matches Some(n) && n.conflict)
}

pub open spec fn any_conflict(comps: Seq<(Stream, Sides)>) -> bool {
    exists|i: int| 0 <= i < comps.len() && sides_conflicted(#[trigger] comps[i].1)
}

proof fn lemma_observed_prefix(comps: Seq<(Stream, Sides)>, side: int, i: int)
    requires
        0 <= i <= comps.len(),
    ensures
        observed_total(comps.take(i), side) <= observed_total(comps, side),
    decreases comps.len(),
{
    if i < comps.len() {
        assert(comps.drop_last().take(i) =~= comps.take(i));
        lemma_observed_prefix(comps.drop_last(), side, i);
    } else {
        assert(comps.take(i) =~= comps);
    }
}

proof fn lemma_repeat_prefix(comps: Seq<(Stream, Sides)>, i: int)
    requires
        0 <= i <= comps.len(),
    ensures
        repeat_total(comps.take(i)) <= repeat_total(comps),
    decreases comps.len(),
{
    if i < comps.len() {
        assert(comps.drop_last().take(i) =~= comps.take(i));
        lemma_repeat_prefix(comps.drop_last(), i);
    } else {
        assert(comps.take(i) =~= comps);
    }
}

impl Group {
    /// Observations of side 0 (baseline) or 1 (newer).
    pub fn observations(&self, side: usize) -> (n: u64)
        requires
            side < 2,
            observed_total(self.components@, side as int) <= u64::MAX,
        ensures
            n == observed_total(self.components@, side as int),
    {
        let ghost comps = self.components@;
        let mut n: u64 = 0;
        let mut i: usize = 0;
        assert(comps.take(0) =~= Seq::<(Stream, Sides)>::empty());
        while i < self.components.len()
            invariant
                comps == self.components@,
                side < 2,
                i <= comps.len(),
                observed_total(comps, side as int) <= u64::MAX,
                n == observed_total(comps.take(i as int), side as int),
            decreases self.components.len() - i,
        {
            proof {
                assert(comps.take(i as int + 1).drop_last() =~= comps.take(i as int));
                lemma_observed_prefix(comps, side as int, i as int + 1);
            }
            let sides = &self.components[i].1;
            let c = if side == 0 {
                match &sides.baseline {
                    Some(x) => x.count,
                    None => 0,
                }
            } else {
                match &sides.newer {
                    Some(x) => x.count,
                    None => 0,
                }
            };
            n = n + c;
            i = i + 1;
        }
        assert(comps.take(comps.len() as int) =~= comps);
        n
    }

    /// Equal repeats over both sides of every component.
    pub fn repeats(&self) -> (n: u64)
        requires
            repeat_total(self.components@) <= u64::MAX,
        ensures
            n == repeat_total(self.components@),
    {
        let ghost comps = self.components@;
        let mut n: u64 = 0;
        let mut i: usize = 0;
        assert(comps.take(0) =~= Seq::<(Stream, Sides)>::empty());
        while i < self.components.len()
            invariant
                comps == self.components@,
                i <= comps.len(),
                repeat_total(comps) <= u64::MAX,
                n == repeat_total(comps.take(i as int)),
            decreases self.components.len() - i,
        {
            proof {
                assert(comps.take(i as int + 1).drop_last() =~= comps.take(i as int));
                lemma_repeat_prefix(comps, i as int + 1);
            }
            let sides = &self.components[i].1;
            let a = match &sides.baseline {
                Some(x) => x.equal_repeats,
                None => 0,
            };
            let b = match &sides.newer {
                Some(x) => x.equal_repeats,
                None => 0,
            };
            n = n + a + b;
            i = i + 1;
        }
        assert(comps.take(comps.len() as int) =~= comps);
        n
    }

    /// Some side of some component saw two different semantic digests.
    pub fn conflicted(&self) -> (c: bool)
        ensures
            c == any_conflict(self.components@),
    {
        let mut i: usize = 0;
        while i < self.components.len()
            invariant
                i <= self.components@.len(),
                forall|j: int| 0 <= j < i ==> !sides_conflicted(#[trigger] self.components@[j].1),
            decreases self.components.len() - i,
        {
            let sides = &self.components[i].1;
            let a = match &sides.baseline {
                Some(x) => x.conflict,
                None => false,
            };
            let b = match &sides.newer {
                Some(x) => x.conflict,
                None => false,
            };
            if a || b {
                assert(sides_conflicted(self.components@[i as int].1));
                return true;
            }
            i = i + 1;
        }
        false
    }
}


// ---------------------------------------------------------------------------
// Comparison of one source record across two captures.

/// One stream row of a capture's inputs.
pub struct StreamRow {
    pub stream: String,
    pub state: String,
}

/// What the comparison reads of the two captures' inputs: each side's stream
/// rows (absent where the inputs hold no stream list) and the source scope.
pub struct Inputs {
    pub baseline_streams: Option<Vec<StreamRow>>,
    pub newer_streams: Option<Vec<StreamRow>>,
    pub source_scope: Option<String>,
}

/// A stream was enumerated completely on one side.
pub open spec fn stream_complete(rows: Option<Vec<StreamRow>>, uncertain: Seq<String>, stream: Stream) -> bool {
    &&& !(exists|i: int| 0 <= i < uncertain.len() && #[trigger] uncertain[i]@ == crate::snapshot_source::stream_name(stream))
    &&& rows matches Some(r) && exists|j: int|
        0 <= j < r@.len() && #[trigger] r@[j].stream@ == crate::snapshot_source::stream_name(stream) && r@[j].state@
            == "completed"@
}

/// Every stream of a family was enumerated completely on one side.
pub open spec fn family_complete(rows: Option<Vec<StreamRow>>, uncertain: Seq<String>, family: ChangeFamily) -> bool {
    match family {
        ChangeFamily::Notes => stream_complete(rows, uncertain, Stream::Notes) && stream_complete(
            rows,
            uncertain,
            Stream::NoteDetail,
        ),
        ChangeFamily::Tasks => stream_complete(rows, uncertain, Stream::TasksOpen) && stream_complete(
            rows,
            uncertain,
            Stream::TasksCompleted,
        ),
        ChangeFamily::People => stream_complete(rows, uncertain, Stream::People),
        ChangeFamily::Users => stream_complete(rows, uncertain, Stream::Users),
        ChangeFamily::Stages => stream_complete(rows, uncertain, Stream::Stages),
        ChangeFamily::CustomFields => stream_complete(rows, uncertain, Stream::CustomFields),
    }
}

/// The digest of one category on one side, if that side has the category.
pub open spec fn digest_lookup(cats: Seq<(Category, [u8; 32])>, c: Category) -> Option<Seq<u8>> {
    if has_first(cats, c) {
        Some(cats[first_index(cats, c)].1@)
    } else {
        None
    }
}

pub open spec fn component_disposition(s: Sides, has0: bool, has1: bool) -> Disposition {
    match (s.baseline, s.newer) {
        (Some(a), Some(b)) => if a.conflict || b.conflict {
            Disposition::Unresolved
        } else if a.semantic@ == b.semantic@ && a.streams@.to_set() == b.streams@.to_set() {
            Disposition::Unchanged
        } else {
            Disposition::Changed
        },
        (None, Some(_)) => if !has0 {
            Disposition::NewlyObserved
        } else {
            Disposition::Unresolved
        },
        (Some(_), None) => if !has1 {
            Disposition::NotSeenAgain
        } else {
            Disposition::Unresolved
        },
        (None, None) => Disposition::Unresolved,
    }
}

/// A component lacks the side it would need to be compared.
pub open spec fn component_missing(s: Sides, has0: bool, has1: bool) -> bool {
    match (s.baseline, s.newer) {
        (Some(_), Some(_)) => false,
        (None, Some(_)) => has0,
        (Some(_), None) => has1,
        (None, None) => true,
    }
}

/// The categories whose digests differ between the two sides of a
/// comparable component, and task status where a task moved between streams.
pub open spec fn component_categories(s: Sides, family: ChangeFamily) -> Set<Category> {
    match (s.baseline, s.newer) {
        (Some(a), Some(b)) => if a.conflict || b.conflict {
            Set::empty()
        } else {
            let diff = Set::new(
                |c: Category| digest_lookup(a.categories@, c) != digest_lookup(b.categories@, c),
            );
            if family == ChangeFamily::Tasks && a.streams@.to_set() != b.streams@.to_set() {
                diff.insert(Category::TaskStatus)
            } else {
                diff
            }
        },
        _ => Set::empty(),
    }
}

pub open spec fn changed_categories(comps: Seq<(Stream, Sides)>, family: ChangeFamily) -> Set<Category>
    decreases comps.len(),
{
    if comps.len() == 0 {
        Set::empty()
    } else {
        changed_categories(comps.drop_last(), family).union(component_categories(comps.last().1, family))
    }
}

pub open spec fn any_missing(comps: Seq<(Stream, Sides)>, has0: bool, has1: bool) -> bool {
    exists|i: int| 0 <= i < comps.len() && component_missing(#[trigger] comps[i].1, has0, has1)
}

pub open spec fn any_changed(comps: Seq<(Stream, Sides)>, has0: bool, has1: bool) -> bool {
    exists|i: int|
        0 <= i < comps.len() && component_disposition(#[trigger] comps[i].1, has0, has1) == Disposition::Changed
}

/// The group has no side `side` for representation `rep`.
pub open spec fn lacks(comps: Seq<(Stream, Sides)>, rep: Stream, side: int) -> bool {
    !has_first(comps, rep) || side_at(comps[first_index(comps, rep)].1, side) is None
}

/// A note observed on one side lacks its list or its detail representation there.
pub open spec fn note_gap(comps: Seq<(Stream, Sides)>, has0: bool, has1: bool) -> bool {
    (has0 && (lacks(comps, Stream::Notes, 0) || lacks(comps, Stream::NoteDetail, 0))) || (has1 && (
    lacks(comps, Stream::Notes, 1) || lacks(comps, Stream::NoteDetail, 1)))
}

pub open spec fn when(cond: bool, reason: Seq<char>) -> Set<Seq<char>> {
    if cond {
        set![reason]
    } else {
        Set::empty()
    }
}

/// Reasons that leave the record unresolved.
pub open spec fn blocking_reasons(
    group: Group,
    family: ChangeFamily,
    has_source_id: bool,
    inputs: Inputs,
    uncertain_baseline: Seq<String>,
    uncertain_newer: Seq<String>,
) -> Set<Seq<char>> {
    let comps = group.components@;
    let has0 = observed_total(comps, 0) > 0;
    let has1 = observed_total(comps, 1) > 0;
    reason_set(group.reasons@).union(when(!has_source_id, "invalid_source_id"@)).union(
        when(any_conflict(comps), "conflicting_observations"@),
    ).union(
        when(
            (!has0 && !family_complete(inputs.baseline_streams, uncertain_baseline, family)) || (!has1
                && !family_complete(inputs.newer_streams, uncertain_newer, family)),
            "incomplete_enumeration"@,
        ),
    ).union(when(any_missing(comps, has0, has1), "missing_comparable_component"@)).union(
        when(family == ChangeFamily::Notes && note_gap(comps, has0, has1), "missing_note_component"@),
    )
}

/// The record's disposition.
pub open spec fn record_disposition(
    group: Group,
    family: ChangeFamily,
    has_source_id: bool,
    inputs: Inputs,
    uncertain_baseline: Seq<String>,
    uncertain_newer: Seq<String>,
) -> Disposition {
    let comps = group.components@;
    let has0 = observed_total(comps, 0) > 0;
    let has1 = observed_total(comps, 1) > 0;
    if !blocking_reasons(group, family, has_source_id, inputs, uncertain_baseline, uncertain_newer).is_empty() {
        Disposition::Unresolved
    } else if !has0 {
        Disposition::NewlyObserved
    } else if !has1 {
        Disposition::NotSeenAgain
    } else if any_changed(comps, has0, has1) {
        Disposition::Changed
    } else {
        Disposition::Unchanged
    }
}

/// Every reason reported for the record.
pub open spec fn record_reasons(
    group: Group,
    family: ChangeFamily,
    has_source_id: bool,
    inputs: Inputs,
    uncertain_baseline: Seq<String>,
    uncertain_newer: Seq<String>,
) -> Set<Seq<char>> {
    let comps = group.components@;
    let has0 = observed_total(comps, 0) > 0;
    let has1 = observed_total(comps, 1) > 0;
    let d = record_disposition(group, family, has_source_id, inputs, uncertain_baseline, uncertain_newer);
    let consistent = inputs.source_scope matches Some(s) && s@ == "consistent_identity"@;
    blocking_reasons(group, family, has_source_id, inputs, uncertain_baseline, uncertain_newer).union(
        when(d == Disposition::NotSeenAgain, "absence_is_not_deletion"@),
    ).union(when(d == Disposition::NewlyObserved, "first_observation_is_not_creation"@)).union(
        when(!has0 || !has1, "effective_access_not_proven"@),
    ).union(when((!has0 || !has1) && !consistent, "source_scope_changed_or_unknown"@))
}

/// The comparison of one component.
pub struct ComponentReport {
    pub stream: Stream,
    pub disposition: Disposition,
    pub baseline_observations: u64,
    pub newer_observations: u64,
}

/// The comparison of one source record across a baseline and a newer capture.
pub struct Comparison {
    pub id: u128,
    pub family: ChangeFamily,
    pub source_id: Option<String>,
    pub disposition: Disposition,
    pub categories: Vec<Category>,
    pub reasons: Vec<String>,
    pub baseline_observations: u64,
    pub newer_observations: u64,
    pub components: Vec<ComponentReport>,
}

fn reason_named(v: &mut Vec<String>, name: &str)
    requires
        distinct_reasons(old(v)@),
    ensures
        distinct_reasons(final(v)@),
        reason_set(final(v)@) == reason_set(old(v)@).insert(name@),
{
    let owned = name.to_owned();
    insert_reason(v, &owned);
}

fn contains_category(v: &Vec<Category>, x: Category) -> (found: bool)
    ensures
        found == v@.contains(x),
{
    let mut i: usize = 0;
    while i < v.len()
        invariant
            i <= v@.len(),
            forall|j: int| 0 <= j < i ==> v@[j] != x,
        decreases v.len() - i,
    {
        if v[i] == x {
            assert(v@[i as int] == x);
            return true;
        }
        i = i + 1;
    }
    false
}

fn insert_category(v: &mut Vec<Category>, x: Category)
    ensures
        final(v)@.to_set() == old(v)@.to_set().insert(x),
{
    if !contains_category(v, x) {
        let ghost before = v@;
        v.push(x);
        proof {
            before.lemma_push_to_set_commute(x);
        }
    } else {
        assert(v@.to_set() =~= v@.to_set().insert(x));
    }
}

fn find_category(cats: &Vec<(Category, [u8; 32])>, c: Category) -> (found: Option<usize>)
    requires
        unique_firsts(cats@),
    ensures
        found is None <==> !has_first(cats@, c),
        found matches Some(k) ==> k < cats@.len() && first_index(cats@, c) == k && cats@[k as int].0 == c,
{
    let mut k: usize = 0;
    while k < cats.len()
        invariant
            k <= cats@.len(),
            unique_firsts(cats@),
            forall|j: int| 0 <= j < k ==> cats@[j].0 != c,
        decreases cats.len() - k,
    {
        if cats[k].0 == c {
            proof {
                lemma_first_index(cats@, k as int);
            }
            return Some(k);
        }
        k = k + 1;
    }
    None
}

/// Adds every category of `a` whose digest differs in `b`.
fn differing_categories(a: &Vec<(Category, [u8; 32])>, b: &Vec<(Category, [u8; 32])>, out: &mut Vec<Category>)
    requires
        unique_firsts(a@),
        unique_firsts(b@),
    ensures
        final(out)@.to_set() == old(out)@.to_set().union(
            Set::new(|c: Category| has_first(a@, c) && digest_lookup(a@, c) != digest_lookup(b@, c)),
        ),
{
    let ghost start = out@.to_set();
    let mut i: usize = 0;
    while i < a.len()
        invariant
            i <= a@.len(),
            unique_firsts(a@),
            unique_firsts(b@),
            out@.to_set() == start.union(
                Set::new(
                    |c: Category|
                        exists|j: int| 0 <= j < i && a@[j].0 == c && digest_lookup(a@, c) != digest_lookup(b@, c),
                ),
            ),
        decreases a.len() - i,
    {
        let c = a[i].0;
        proof {
            lemma_first_index(a@, i as int);
        }
        let differs = match find_category(b, c) {
            Some(k) => !digest_equal(&a[i].1, &b[k].1),
            None => true,
        };
        if differs {
            insert_category(out, c);
        }
        proof {
            assert(out@.to_set() =~= start.union(
                Set::new(
                    |x: Category|
                        exists|j: int| 0 <= j < i + 1 && a@[j].0 == x && digest_lookup(a@, x) != digest_lookup(b@, x),
                ),
            ));
        }
        i = i + 1;
    }
    proof {
        assert(out@.to_set() =~= start.union(
            Set::new(|c: Category| has_first(a@, c) && digest_lookup(a@, c) != digest_lookup(b@, c)),
        ));
    }
}

fn same_streams(a: &Vec<Stream>, b: &Vec<Stream>) -> (same: bool)
    requires
        a@.no_duplicates(),
        b@.no_duplicates(),
    ensures
        same == (a@.to_set() == b@.to_set()),
{
    proof {
        a@.unique_seq_to_set();
        b@.unique_seq_to_set();
    }
    if a.len() != b.len() {
        proof {
            if a@.to_set() == b@.to_set() {
                assert(false);
            }
        }
        return false;
    }
    let mut i: usize = 0;
    while i < a.len()
        invariant
            a@.len() == b@.len(),
            i <= a@.len(),
            forall|j: int| 0 <= j < i ==> b@.contains(#[trigger] a@[j]),
        decreases a.len() - i,
    {
        if !contains_stream(b, a[i]) {
            proof {
                assert(a@.to_set().contains(a@[i as int]));
                assert(!b@.to_set().contains(a@[i as int]));
            }
            return false;
        }
        i = i + 1;
    }
    proof {
        assert(a@.to_set().subset_of(b@.to_set())) by {
            assert forall|x: Stream| a@.to_set().contains(x) implies b@.to_set().contains(x) by {
                let k = choose|k: int| 0 <= k < a@.len() && a@[k] == x;
                assert(b@.contains(a@[k]));
            }
        }
        vstd::set_lib::lemma_subset_equality(a@.to_set(), b@.to_set());
    }
    true
}

/// Compares one component and records its changed categories.
fn compare_component(sides: &Sides, family: ChangeFamily, has0: bool, has1: bool, categories: &mut Vec<Category>) -> (d: Disposition)
    requires
        opt_side_wf(sides.baseline),
        opt_side_wf(sides.newer),
    ensures
        d == component_disposition(*sides, has0, has1),
        final(categories)@.to_set() == old(categories)@.to_set().union(component_categories(*sides, family)),
{
    match (&sides.baseline, &sides.newer) {
        (Some(a), Some(b)) => {
            if a.conflict || b.conflict {
                assert(old(categories)@.to_set().union(Set::<Category>::empty()) =~= old(categories)@.to_set());
                return Disposition::Unresolved;
            }
            let ghost start = categories@.to_set();
            differing_categories(&a.categories, &b.categories, categories);
            differing_categories(&b.categories, &a.categories, categories);
            let same_set = same_streams(&a.streams, &b.streams);
            if family == ChangeFamily::Tasks && !same_set {
                insert_category(categories, Category::TaskStatus);
            }
            proof {
                let diff = Set::new(
                    |c: Category| digest_lookup(a.categories@, c) != digest_lookup(b.categories@, c),
                );
                assert forall|c: Category| #[trigger] diff.contains(c) implies (has_first(a.categories@, c) || has_first(b.categories@, c)) by {}
                assert(component_categories(*sides, family) =~= (if family == ChangeFamily::Tasks && !same_set {
                    diff.insert(Category::TaskStatus)
                } else {
                    diff
                }));
                assert(categories@.to_set() =~= start.union(component_categories(*sides, family)));
            }
            if digest_equal(&a.semantic, &b.semantic) && same_set {
                Disposition::Unchanged
            } else {
                Disposition::Changed
            }
        },
        (None, Some(_)) => {
            assert(old(categories)@.to_set().union(Set::<Category>::empty()) =~= old(categories)@.to_set());
            if !has0 {
                Disposition::NewlyObserved
            } else {
                Disposition::Unresolved
            }
        },
        (Some(_), None) => {
            assert(old(categories)@.to_set().union(Set::<Category>::empty()) =~= old(categories)@.to_set());
            if !has1 {
                Disposition::NotSeenAgain
            } else {
                Disposition::Unresolved
            }
        },
        (None, None) => {
            assert(old(categories)@.to_set().union(Set::<Category>::empty()) =~= old(categories)@.to_set());
            Disposition::Unresolved
        },
    }
}


fn stream_done(rows: &Option<Vec<StreamRow>>, uncertain: &Vec<String>, stream: Stream) -> (done: bool)
    ensures
        done == stream_complete(*rows, uncertain@, stream),
{
    let name = stream.as_str().to_owned();
    let mut i: usize = 0;
    while i < uncertain.len()
        invariant
            i <= uncertain@.len(),
            name@ == crate::snapshot_source::stream_name(stream),
            forall|j: int| 0 <= j < i ==> #[trigger] uncertain@[j]@ != crate::snapshot_source::stream_name(stream),
        decreases uncertain.len() - i,
    {
        if uncertain[i].eq(&name) {
            return false;
        }
        i = i + 1;
    }
    match rows {
        None => false,
        Some(r) => completed_row(r, stream),
    }
}

/// Some row reports `stream` as completed.
fn completed_row(r: &Vec<StreamRow>, stream: Stream) -> (found: bool)
    ensures
        found == exists|k: int|
            0 <= k < r@.len() && #[trigger] r@[k].stream@ == crate::snapshot_source::stream_name(stream)
                && r@[k].state@ == "completed"@,
{
    let name = stream.as_str().to_owned();
    let completed = "completed".to_owned();
    let mut j: usize = 0;
    while j < r.len()
        invariant
            j <= r@.len(),
            name@ == crate::snapshot_source::stream_name(stream),
            completed@ == "completed"@,
            forall|k: int|
                0 <= k < j ==> !(#[trigger] r@[k].stream@ == crate::snapshot_source::stream_name(stream)
                    && r@[k].state@ == "completed"@),
        decreases r.len() - j,
    {
        if r[j].stream.eq(&name) && r[j].state.eq(&completed) {
            assert(r@[j as int].stream@ == crate::snapshot_source::stream_name(stream));
            return true;
        }
        j = j + 1;
    }
    false
}

fn family_done(rows: &Option<Vec<StreamRow>>, uncertain: &Vec<String>, family: ChangeFamily) -> (done: bool)
    ensures
        done == family_complete(*rows, uncertain@, family),
{
    match family {
        ChangeFamily::Notes => stream_done(rows, uncertain, Stream::Notes) && stream_done(
            rows,
            uncertain,
            Stream::NoteDetail,
        ),
        ChangeFamily::Tasks => stream_done(rows, uncertain, Stream::TasksOpen) && stream_done(
            rows,
            uncertain,
            Stream::TasksCompleted,
        ),
        ChangeFamily::People => stream_done(rows, uncertain, Stream::People),
        ChangeFamily::Users => stream_done(rows, uncertain, Stream::Users),
        ChangeFamily::Stages => stream_done(rows, uncertain, Stream::Stages),
        ChangeFamily::CustomFields => stream_done(rows, uncertain, Stream::CustomFields),
    }
}

fn lacks_side(comps: &Vec<(Stream, Sides)>, rep: Stream, side: usize) -> (lacking: bool)
    requires
        unique_firsts(comps@),
    ensures
        lacking == lacks(comps@, rep, side as int),
{
    match find_component(comps, rep) {
        None => true,
        Some(k) => {
            proof {
                lemma_first_index(comps@, k as int);
            }
            if side == 0 {
                comps[k].1.baseline.is_none()
            } else {
                comps[k].1.newer.is_none()
            }
        },
    }
}

/// Compares the baseline and newer observations of one source record. A
/// record is unresolved whenever anything blocks an exact comparison; absence
/// and first observation are never read as deletion or creation.
pub fn compare(
    id: u128,
    family: ChangeFamily,
    source_id: Option<&str>,
    group: &Group,
    inputs: &Inputs,
    uncertain_baseline: &Vec<String>,
    uncertain_newer: &Vec<String>,
) -> (c: Comparison)
    requires
        group.wf(),
        observed_total(group.components@, 0) <= u64::MAX,
        observed_total(group.components@, 1) <= u64::MAX,
    ensures
        c.id == id,
        c.family == family,
        c.source_id is Some <==> source_id is Some,
        c.source_id matches Some(s) ==> s@ == source_id->0@,
        c.disposition == record_disposition(
            *group,
            family,
            source_id is Some,
            *inputs,
            uncertain_baseline@,
            uncertain_newer@,
        ),
        distinct_reasons(c.reasons@),
        reason_set(c.reasons@) == record_reasons(
            *group,
            family,
            source_id is Some,
            *inputs,
            uncertain_baseline@,
            uncertain_newer@,
        ),
        c.categories@.to_set() == changed_categories(group.components@, family),
        c.baseline_observations == observed_total(group.components@, 0),
        c.newer_observations == observed_total(group.components@, 1),
        c.components@.len() == group.components@.len(),
        forall|i: int|
            0 <= i < c.components@.len() ==> {
                let s = group.components@[i];
                let r = #[trigger] c.components@[i];
                &&& r.stream == s.0
                &&& r.disposition == component_disposition(
                    s.1,
                    observed_total(group.components@, 0) > 0,
                    observed_total(group.components@, 1) > 0,
                )
                &&& r.baseline_observations == side_count(s.1, 0)
                &&& r.newer_observations == side_count(s.1, 1)
            },
{
    let ghost comps = group.components@;
    let baseline_observations = group.observations(0);
    let newer_observations = group.observations(1);
    let has0 = baseline_observations > 0;
    let has1 = newer_observations > 0;
    let mut reasons: Vec<String> = Vec::new();
    let mut i: usize = 0;
    while i < group.reasons.len()
        invariant
            i <= group.reasons@.len(),
            reasons@ == group.reasons@.take(i as int),
        decreases group.reasons.len() - i,
    {
        reasons.push(group.reasons[i].clone());
        i = i + 1;
        assert(reasons@ =~= group.reasons@.take(i as int));
    }
    assert(reasons@ =~= group.reasons@);
    if source_id.is_none() {
        reason_named(&mut reasons, "invalid_source_id");
    }
    if group.conflicted() {
        reason_named(&mut reasons, "conflicting_observations");
    }
    if (!has0 && !family_done(&inputs.baseline_streams, uncertain_baseline, family)) || (!has1
        && !family_done(&inputs.newer_streams, uncertain_newer, family)) {
        reason_named(&mut reasons, "incomplete_enumeration");
    }
    let mut categories: Vec<Category> = Vec::new();
    let mut components: Vec<ComponentReport> = Vec::new();
    let mut missing = false;
    let mut changed = false;
    let mut n: usize = 0;
    assert(categories@.to_set() =~= changed_categories(comps.take(0), family));
    while n < group.components.len()
        invariant
            comps == group.components@,
            group.wf(),
            n <= comps.len(),
            categories@.to_set() == changed_categories(comps.take(n as int), family),
            components@.len() == n,
            forall|j: int|
                0 <= j < n ==> {
                    let s = comps[j];
                    let r = #[trigger] components@[j];
                    &&& r.stream == s.0
                    &&& r.disposition == component_disposition(s.1, has0, has1)
                    &&& r.baseline_observations == side_count(s.1, 0)
                    &&& r.newer_observations == side_count(s.1, 1)
                },
            missing == exists|j: int| 0 <= j < n && component_missing(#[trigger] comps[j].1, has0, has1),
            changed == exists|j: int|
                0 <= j < n && component_disposition(#[trigger] comps[j].1, has0, has1) == Disposition::Changed,
        decreases group.components.len() - n,
    {
        let entry = &group.components[n];
        assert(opt_side_wf(comps[n as int].1.baseline) && opt_side_wf(comps[n as int].1.newer));
        let d = compare_component(&entry.1, family, has0, has1, &mut categories);
        proof {
            assert(comps.take(n as int + 1).drop_last() =~= comps.take(n as int));
        }
        let lacking = match (&entry.1.baseline, &entry.1.newer) {
            (Some(_), Some(_)) => false,
            (None, Some(_)) => has0,
            (Some(_), None) => has1,
            (None, None) => true,
        };
        if lacking {
            missing = true;
        }
        if d == Disposition::Changed {
            changed = true;
        }
        let b = match &entry.1.baseline {
            Some(x) => x.count,
            None => 0,
        };
        let w = match &entry.1.newer {
            Some(x) => x.count,
            None => 0,
        };
        components.push(ComponentReport { stream: entry.0, disposition: d, baseline_observations: b, newer_observations: w });
        n = n + 1;
    }
    assert(comps.take(comps.len() as int) =~= comps);
    if missing {
        reason_named(&mut reasons, "missing_comparable_component");
    }
    if family == ChangeFamily::Notes {
        let gap = (has0 && (lacks_side(&group.components, Stream::Notes, 0) || lacks_side(
            &group.components,
            Stream::NoteDetail,
            0,
        ))) || (has1 && (lacks_side(&group.components, Stream::Notes, 1) || lacks_side(
            &group.components,
            Stream::NoteDetail,
            1,
        )));
        if gap {
            reason_named(&mut reasons, "missing_note_component");
        }
    }
    let ghost blocking = reason_set(reasons@);
    proof {
        assert(blocking =~= blocking_reasons(
            *group,
            family,
            source_id is Some,
            *inputs,
            uncertain_baseline@,
            uncertain_newer@,
        ));
    }
    let disposition = if reasons.len() > 0 {
        proof {
            assert(blocking.contains(reasons@[0]@));
        }
        Disposition::Unresolved
    } else if !has0 {
        proof {
            assert(blocking =~= Set::<Seq<char>>::empty());
        }
        Disposition::NewlyObserved
    } else if !has1 {
        proof {
            assert(blocking =~= Set::<Seq<char>>::empty());
        }
        Disposition::NotSeenAgain
    } else if changed {
        proof {
            assert(blocking =~= Set::<Seq<char>>::empty());
        }
        Disposition::Changed
    } else {
        proof {
            assert(blocking =~= Set::<Seq<char>>::empty());
        }
        Disposition::Unchanged
    };
    if disposition == Disposition::NotSeenAgain {
        reason_named(&mut reasons, "absence_is_not_deletion");
    }
    if disposition == Disposition::NewlyObserved {
        reason_named(&mut reasons, "first_observation_is_not_creation");
    }
    if !has0 || !has1 {
        reason_named(&mut reasons, "effective_access_not_proven");
        let consistent = match &inputs.source_scope {
            Some(scope) => {
                let expected = "consistent_identity".to_owned();
                scope.eq(&expected)
            },
            None => false,
        };
        if !consistent {
            reason_named(&mut reasons, "source_scope_changed_or_unknown");
        }
    }
    proof {
        assert(reason_set(reasons@) =~= record_reasons(
            *group,
            family,
            source_id is Some,
            *inputs,
            uncertain_baseline@,
            uncertain_newer@,
        ));
    }
    let source = match source_id {
        Some(s) => Some(s.to_owned()),
        None => None,
    };
    Comparison {
        id,
        family,
        source_id: source,
        disposition,
        categories,
        reasons,
        baseline_observations,
        newer_observations,
        components,
    }
}


/// A record is reported unchanged or changed only when both captures observed
/// it and nothing blocks the comparison, and then no reason is reported. A
/// record seen on one side only is never read as a creation or a deletion. A
/// record with conflicting observations, without a usable source id, or with
/// a reason of its own is left unresolved.
pub proof fn law_comparison_claims_only_what_both_sides_show(
    group: Group,
    family: ChangeFamily,
    has_source_id: bool,
    inputs: Inputs,
    uncertain_baseline: Seq<String>,
    uncertain_newer: Seq<String>,
)
    ensures
        ({
            let d = record_disposition(group, family, has_source_id, inputs, uncertain_baseline, uncertain_newer);
            let r = record_reasons(group, family, has_source_id, inputs, uncertain_baseline, uncertain_newer);
            &&& (d == Disposition::Unchanged || d == Disposition::Changed) ==> r.is_empty()
                && observed_total(group.components@, 0) > 0 && observed_total(group.components@, 1) > 0
            &&& d == Disposition::NotSeenAgain ==> r.contains("absence_is_not_deletion"@) && r.contains(
                "effective_access_not_proven"@,
            )
            &&& d == Disposition::NewlyObserved ==> r.contains("first_observation_is_not_creation"@)
                && r.contains("effective_access_not_proven"@)
            &&& (any_conflict(group.components@) || !has_source_id || !reason_set(group.reasons@).is_empty())
                ==> d == Disposition::Unresolved
        }),
{
    let d = record_disposition(group, family, has_source_id, inputs, uncertain_baseline, uncertain_newer);
    let r = record_reasons(group, family, has_source_id, inputs, uncertain_baseline, uncertain_newer);
    let b = blocking_reasons(group, family, has_source_id, inputs, uncertain_baseline, uncertain_newer);
    if any_conflict(group.components@) {
        assert(b.contains("conflicting_observations"@));
    }
    if !has_source_id {
        assert(b.contains("invalid_source_id"@));
    }
    if !reason_set(group.reasons@).is_empty() {
        let x = reason_set(group.reasons@).choose();
        assert(b.contains(x));
    }
    if d == Disposition::Unchanged || d == Disposition::Changed {
        assert(b.is_empty());
        assert(b =~= Set::<Seq<char>>::empty());
        assert(r =~= Set::<Seq<char>>::empty());
    }
}


/// When both captures observed a record and nothing blocks its comparison,
/// the record is changed exactly when some component of it changed, and
/// unchanged exactly when every component is unchanged.
pub proof fn law_a_record_changes_with_any_component(
    group: Group,
    family: ChangeFamily,
    has_source_id: bool,
    inputs: Inputs,
    uncertain_baseline: Seq<String>,
    uncertain_newer: Seq<String>,
)
    requires
        blocking_reasons(group, family, has_source_id, inputs, uncertain_baseline, uncertain_newer).is_empty(),
        observed_total(group.components@, 0) > 0,
        observed_total(group.components@, 1) > 0,
    ensures
        ({
            let comps = group.components@;
            let d = record_disposition(group, family, has_source_id, inputs, uncertain_baseline, uncertain_newer);
            &&& (d == Disposition::Changed) == (exists|i: int|
                0 <= i < comps.len() && component_disposition(#[trigger] comps[i].1, true, true)
                    == Disposition::Changed)
            &&& (d == Disposition::Unchanged) == (forall|i: int|
                0 <= i < comps.len() ==> component_disposition(#[trigger] comps[i].1, true, true)
                    == Disposition::Unchanged)
        }),
{
    let comps = group.components@;
    let b = blocking_reasons(group, family, has_source_id, inputs, uncertain_baseline, uncertain_newer);
    if any_conflict(comps) {
        assert(b.contains("conflicting_observations"@));
    }
    if any_missing(comps, true, true) {
        assert(b.contains("missing_comparable_component"@));
    }
    assert forall|i: int| 0 <= i < comps.len() implies (#[trigger] component_disposition(comps[i].1, true, true)
        == Disposition::Unchanged || component_disposition(comps[i].1, true, true) == Disposition::Changed) by {
        assert(!sides_conflicted(comps[i].1));
        assert(!component_missing(comps[i].1, true, true));
    }
}

fn unique_categories(cats: &Vec<(Category, [u8; 32])>) -> (unique: bool)
    ensures
        unique == unique_firsts(cats@),
{
    let n = cats.len();
    let mut i: usize = 0;
    while i < n
        invariant
            n == cats@.len(),
            i <= n,
            forall|a: int, b: int| 0 <= a < i && 0 <= b < n && a != b ==> cats@[a].0 != cats@[b].0,
        decreases n - i,
    {
        let mut j: usize = 0;
        while j < n
            invariant
                n == cats@.len(),
                i < n,
                j <= n,
                forall|a: int, b: int| 0 <= a < i && 0 <= b < n && a != b ==> cats@[a].0 != cats@[b].0,
                forall|b: int| 0 <= b < j && b != i ==> cats@[i as int].0 != cats@[b].0,
            decreases n - j,
        {
            if j != i && cats[i].0 == cats[j].0 {
                return false;
            }
            j = j + 1;
        }
        i = i + 1;
    }
    true
}

fn distinct_streams(v: &Vec<Stream>) -> (distinct: bool)
    ensures
        distinct == v@.no_duplicates(),
{
    let n = v.len();
    let mut i: usize = 0;
    while i < n
        invariant
            n == v@.len(),
            i <= n,
            forall|a: int, b: int| 0 <= a < i && 0 <= b < n && a != b ==> v@[a] != v@[b],
        decreases n - i,
    {
        let mut j: usize = 0;
        while j < n
            invariant
                n == v@.len(),
                i < n,
                j <= n,
                forall|a: int, b: int| 0 <= a < i && 0 <= b < n && a != b ==> v@[a] != v@[b],
                forall|b: int| 0 <= b < j && b != i ==> v@[i as int] != v@[b],
            decreases n - j,
        {
            if j != i && v[i] == v[j] {
                return false;
            }
            j = j + 1;
        }
        i = i + 1;
    }
    true
}

fn side_ok(s: &Option<Side>) -> (ok: bool)
    ensures
        ok == opt_side_wf(*s),
{
    match s {
        Some(x) => unique_categories(&x.categories) && distinct_streams(&x.streams),
        None => true,
    }
}

impl Group {
    /// Whether a group read back from storage is well formed: each
    /// representation once, each reason once, and each side with each
    /// category and stream once.
    pub fn well_formed(&self) -> (ok: bool)
        ensures
            ok == self.wf(),
    {
        let n = self.components.len();
        let mut i: usize = 0;
        while i < n
            invariant
                n == self.components@.len(),
                i <= n,
                forall|a: int, b: int|
                    0 <= a < i && 0 <= b < n && a != b ==> self.components@[a].0 != self.components@[b].0,
                forall|a: int|
                    0 <= a < i ==> opt_side_wf(#[trigger] self.components@[a].1.baseline) && opt_side_wf(
                        self.components@[a].1.newer,
                    ),
            decreases n - i,
        {
            if !side_ok(&self.components[i].1.baseline) || !side_ok(&self.components[i].1.newer) {
                return false;
            }
            let mut j: usize = 0;
            while j < n
                invariant
                    n == self.components@.len(),
                    i < n,
                    j <= n,
                    forall|a: int, b: int|
                        0 <= a < i && 0 <= b < n && a != b ==> self.components@[a].0 != self.components@[b].0,
                    forall|b: int| 0 <= b < j && b != i ==> self.components@[i as int].0 != self.components@[b].0,
                decreases n - j,
            {
                if j != i && self.components[i].0 == self.components[j].0 {
                    return false;
                }
                j = j + 1;
            }
            i = i + 1;
        }
        let m = self.reasons.len();
        let mut a: usize = 0;
        while a < m
            invariant
                m == self.reasons@.len(),
                a <= m,
                forall|x: int, y: int| 0 <= x < a && 0 <= y < m && x != y ==> self.reasons@[x]@ != self.reasons@[y]@,
            decreases m - a,
        {
            let mut b: usize = 0;
            while b < m
                invariant
                    m == self.reasons@.len(),
                    a < m,
                    b <= m,
                    forall|x: int, y: int| 0 <= x < a && 0 <= y < m && x != y ==> self.reasons@[x]@ != self.reasons@[y]@,
                    forall|y: int| 0 <= y < b && y != a ==> self.reasons@[a as int]@ != self.reasons@[y]@,
                decreases m - b,
            {
                if b != a && self.reasons[a].eq(&self.reasons[b]) {
                    return false;
                }
                b = b + 1;
            }
            a = a + 1;
        }
        true
    }
}

} // verus!
