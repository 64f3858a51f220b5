//! One atomic Person metadata proposal. Source qualification, catalog resolution
//! and immutable baseline reconstruction happen before this comparison; database
//! execution must recheck the same state/revision and catalog under its locks.
//!
//! Sets and maps are carried as vectors without repeated keys; their meaning is
//! the set of their elements (tags) or the map from key to value (fields).
use super::model::{spec_reconciles, Counts, Hold};
use vstd::prelude::*;
use vstd::set_lib::lemma_subset_equality;
use vstd::seq_lib::seq_to_set_distributes_over_add;

verus! {

/// A 32-byte source alias (the keyed digest of a source tag spelling), as two
/// big-endian halves.
#[derive(Debug, Clone, Copy, PartialEq, Eq, Structural)]
pub struct Alias(pub u128, pub u128);

#[derive(Debug, Clone, Copy, PartialEq, Eq, Structural)]
pub enum FieldType {
    Text,
    Number,
    Date,
    Choice,
}

/// A native custom-field value. Numbers keep their canonical decimal text and
/// dates their day number in the common era (0001-01-01 is day 1), so
/// equality is exact.
#[derive(Debug, Clone)]
pub enum CustomFieldValue {
    Text(String),
    Number(String),
    Date(i32),
    Choice(u128),
}

pub enum ValueView {
    Text(Seq<char>),
    Number(Seq<char>),
    Date(i32),
    Choice(u128),
}

impl View for CustomFieldValue {
    type V = ValueView;

    open spec fn view(&self) -> ValueView {
        match self {
            CustomFieldValue::Text(s) => ValueView::Text(s@),
            CustomFieldValue::Number(s) => ValueView::Number(s@),
            CustomFieldValue::Date(d) => ValueView::Date(*d),
            CustomFieldValue::Choice(o) => ValueView::Choice(*o),
        }
    }
}

/// The native name of a field type.
pub open spec fn field_type_name(t: FieldType) -> Seq<char> {
    match t {
        FieldType::Text => "text"@,
        FieldType::Number => "number"@,
        FieldType::Date => "date"@,
        FieldType::Choice => "choice"@,
    }
}

impl FieldType {
    pub fn as_str(self) -> (name: &'static str)
        ensures
            name@ == field_type_name(self),
    {
        match self {
            FieldType::Text => "text",
            FieldType::Number => "number",
            FieldType::Date => "date",
            FieldType::Choice => "choice",
        }
    }
}

pub open spec fn value_type(v: ValueView) -> FieldType {
    match v {
        ValueView::Text(_) => FieldType::Text,
        ValueView::Number(_) => FieldType::Number,
        ValueView::Date(_) => FieldType::Date,
        ValueView::Choice(_) => FieldType::Choice,
    }
}

impl CustomFieldValue {
    pub fn field_type(&self) -> (t: FieldType)
        ensures
            t == value_type(self@),
    {
        match self {
            CustomFieldValue::Text(_) => FieldType::Text,
            CustomFieldValue::Number(_) => FieldType::Number,
            CustomFieldValue::Date(_) => FieldType::Date,
            CustomFieldValue::Choice(_) => FieldType::Choice,
        }
    }

    pub fn duplicate(&self) -> (copy: Self)
        ensures
            copy@ == self@,
    {
        match self {
            CustomFieldValue::Text(s) => CustomFieldValue::Text(s.clone()),
            CustomFieldValue::Number(s) => CustomFieldValue::Number(s.clone()),
            CustomFieldValue::Date(d) => CustomFieldValue::Date(*d),
            CustomFieldValue::Choice(o) => CustomFieldValue::Choice(*o),
        }
    }
}

/// Values are equal only within one field type.
pub fn equal(a: &CustomFieldValue, b: &CustomFieldValue) -> (eq: bool)
    ensures
        eq == (a@ == b@),
{
    match (a, b) {
        (CustomFieldValue::Text(x), CustomFieldValue::Text(y)) => x.eq(y),
        (CustomFieldValue::Number(x), CustomFieldValue::Number(y)) => x.eq(y),
        (CustomFieldValue::Date(x), CustomFieldValue::Date(y)) => *x == *y,
        (CustomFieldValue::Choice(x), CustomFieldValue::Choice(y)) => *x == *y,
        _ => false,
    }
}

pub open spec fn keys<T>(s: Seq<(u128, T)>) -> Seq<u128> {
    s.map_values(|p: (u128, T)| p.0)
}

/// The entry index of a key in a keyed vector without repeated keys.
pub open spec fn key_index<T>(s: Seq<(u128, T)>, k: u128) -> int {
    choose|i: int| 0 <= i < s.len() && s[i].0 == k
}

pub open spec fn has_key<T>(s: Seq<(u128, T)>, k: u128) -> bool {
    exists|i: int| 0 <= i < s.len() && s[i].0 == k
}

pub open spec fn unique_keys<T>(s: Seq<(u128, T)>) -> bool {
    forall|i: int, j: int| 0 <= i < s.len() && 0 <= j < s.len() && i != j ==> s[i].0 != s[j].0
}

/// The field map of a field vector.
pub open spec fn field_map(s: Seq<(u128, CustomFieldValue)>) -> Map<u128, ValueView> {
    Map::new(|k: u128| has_key(s, k), |k: u128| s[key_index(s, k)].1@)
}

pub proof fn lemma_key_index<T>(s: Seq<(u128, T)>, i: int)
    requires
        unique_keys(s),
        0 <= i < s.len(),
    ensures
        has_key(s, s[i].0),
        key_index(s, s[i].0) == i,
{
    assert(has_key(s, s[i].0));
}

/// Removing an entry keeps keys unique and drops exactly that key.
pub proof fn lemma_remove_entry<T>(s: Seq<(u128, T)>, i: int)
    requires
        unique_keys(s),
        0 <= i < s.len(),
    ensures
        unique_keys(s.remove(i)),
        forall|k: u128| has_key(s.remove(i), k) <==> (has_key(s, k) && k != s[i].0),
        forall|k: u128|
            has_key(s.remove(i), k) ==> #[trigger] s.remove(i)[key_index(s.remove(i), k)] == s[key_index(s, k)],
{
    let r = s.remove(i);
    assert forall|k: u128| has_key(r, k) <==> (has_key(s, k) && k != s[i].0) by {
        if has_key(r, k) {
            let j = choose|j: int| 0 <= j < r.len() && r[j].0 == k;
            if j < i {
                assert(s[j].0 == k);
            } else {
                assert(s[j + 1].0 == k);
            }
        }
        if has_key(s, k) && k != s[i].0 {
            let j = choose|j: int| 0 <= j < s.len() && s[j].0 == k;
            if j < i {
                assert(r[j].0 == k);
            } else {
                assert(j != i);
                assert(r[j - 1].0 == k);
            }
        }
    }
    assert forall|k: u128| has_key(r, k) implies #[trigger] r[key_index(r, k)] == s[key_index(s, k)] by {
        let j = key_index(r, k);
        let m = key_index(s, k);
        if j < i {
            assert(s[j].0 == k);
        } else {
            assert(s[j + 1].0 == k);
        }
    }
}

/// Appending an entry with a new key keeps keys unique.
pub proof fn lemma_push_entry<T>(s: Seq<(u128, T)>, e: (u128, T))
    requires
        unique_keys(s),
        !has_key(s, e.0),
    ensures
        unique_keys(s.push(e)),
        forall|k: u128| has_key(s.push(e), k) <==> (has_key(s, k) || k == e.0),
        key_index(s.push(e), e.0) == s.len(),
        forall|k: u128|
            has_key(s, k) ==> #[trigger] s.push(e)[key_index(s.push(e), k)] == s[key_index(s, k)],
{
    let r = s.push(e);
    assert(r[s.len() as int].0 == e.0);
    assert forall|k: u128| has_key(r, k) <==> (has_key(s, k) || k == e.0) by {
        if has_key(r, k) {
            let j = choose|j: int| 0 <= j < r.len() && r[j].0 == k;
            if j < s.len() {
                assert(s[j].0 == k);
            }
        }
        if has_key(s, k) {
            let j = choose|j: int| 0 <= j < s.len() && s[j].0 == k;
            assert(r[j].0 == k);
        }
    }
    lemma_key_index(r, s.len() as int);
    assert forall|k: u128| has_key(s, k) implies #[trigger] r[key_index(r, k)] == s[key_index(s, k)] by {
        let m = key_index(s, k);
        assert(r[m].0 == k);
        lemma_key_index(r, m);
    }
}

/// Replacing the value of an entry keeps keys unique.
pub proof fn lemma_update_entry<T>(s: Seq<(u128, T)>, i: int, v: T)
    requires
        unique_keys(s),
        0 <= i < s.len(),
    ensures
        unique_keys(s.update(i, (s[i].0, v))),
        forall|k: u128| has_key(s.update(i, (s[i].0, v)), k) <==> has_key(s, k),
        forall|k: u128|
            has_key(s, k) && k != s[i].0 ==> #[trigger] s.update(i, (s[i].0, v))[key_index(
                s.update(i, (s[i].0, v)),
                k,
            )] == s[key_index(s, k)],
        key_index(s.update(i, (s[i].0, v)), s[i].0) == i,
{
    let r = s.update(i, (s[i].0, v));
    assert forall|k: u128| has_key(r, k) <==> has_key(s, k) by {
        if has_key(r, k) {
            let j = choose|j: int| 0 <= j < r.len() && r[j].0 == k;
            assert(s[j].0 == k);
        }
        if has_key(s, k) {
            let j = choose|j: int| 0 <= j < s.len() && s[j].0 == k;
            assert(r[j].0 == k);
        }
    }
    lemma_key_index(r, i);
    assert forall|k: u128| has_key(s, k) && k != s[i].0 implies #[trigger] r[key_index(r, k)]
        == s[key_index(s, k)] by {
        let m = key_index(s, k);
        assert(r[m].0 == k);
        lemma_key_index(r, m);
    }
}

#[derive(Clone)]
pub struct State {
    pub tags: Vec<u128>,
    pub fields: Vec<(u128, CustomFieldValue)>,
}

impl State {
    /// Valid states name each tag and each field once.
    pub open spec fn wf(&self) -> bool {
        self.tags@.no_duplicates() && unique_keys(self.fields@)
    }

    pub open spec fn tag_set(&self) -> Set<u128> {
        self.tags@.to_set()
    }

    pub open spec fn field_values(&self) -> Map<u128, ValueView> {
        field_map(self.fields@)
    }

    /// Same tag set and same field values.
    pub open spec fn same_as(&self, other: &Self) -> bool {
        self.tag_set() == other.tag_set() && self.field_values() == other.field_values()
    }

    pub fn matches(&self, other: &Self) -> (same: bool)
        requires
            self.wf(),
            other.wf(),
        ensures
            same == self.same_as(other),
    {
        let tags = same_tags(&self.tags, &other.tags);
        let fields = same_fields(&self.fields, &other.fields);
        tags && fields
    }
}

pub fn contains_id(v: &Vec<u128>, x: u128) -> (found: bool)
    ensures
        found == v@.contains(x),
{
    let mut i: usize = 0;
    while i < v.len()
        invariant
            i <= v@.len(),
            forall|j: int| 0 <= j < i ==> v@[j] != x,
        decreases v.len() - i,
    {
        if v[i] == x {
            assert(v@[i as int] == x);
            return true;
        }
        i = i + 1;
    }
    false
}

fn same_tags(a: &Vec<u128>, b: &Vec<u128>) -> (same: bool)
    requires
        a@.no_duplicates(),
        b@.no_duplicates(),
    ensures
        same == (a@.to_set() == b@.to_set()),
{
    proof {
        a@.unique_seq_to_set();
        b@.unique_seq_to_set();
    }
    if a.len() != b.len() {
        proof {
            if a@.to_set() == b@.to_set() {
                assert(false);
            }
        }
        return false;
    }
    let mut i: usize = 0;
    while i < a.len()
        invariant
            a@.len() == b@.len(),
            i <= a@.len(),
            forall|j: int| 0 <= j < i ==> b@.contains(#[trigger] a@[j]),
        decreases a.len() - i,
    {
        if !contains_id(b, a[i]) {
            proof {
                assert(a@.to_set().contains(a@[i as int]));
                assert(!b@.to_set().contains(a@[i as int]));
            }
            return false;
        }
        i = i + 1;
    }
    proof {
        assert(a@.to_set().subset_of(b@.to_set())) by {
            assert forall|x: u128| a@.to_set().contains(x) implies b@.to_set().contains(x) by {
                let k = choose|k: int| 0 <= k < a@.len() && a@[k] == x;
                assert(b@.contains(a@[k]));
            }
        }
        lemma_subset_equality(a@.to_set(), b@.to_set());
    }
    true
}

/// Looks up an entry of a keyed vector by its key.
pub fn find_key<T>(entries: &Vec<(u128, T)>, id: u128) -> (found: Option<usize>)
    requires
        unique_keys(entries@),
    ensures
        found is None <==> !has_key(entries@, id),
        found matches Some(i) ==> i < entries@.len() && entries@[i as int].0 == id && key_index(
            entries@,
            id,
        ) == i,
{
    let mut i: usize = 0;
    while i < entries.len()
        invariant
            i <= entries@.len(),
            unique_keys(entries@),
            forall|j: int| 0 <= j < i ==> entries@[j].0 != id,
        decreases entries.len() - i,
    {
        if entries[i].0 == id {
            proof {
                lemma_key_index(entries@, i as int);
            }
            return Some(i);
        }
        i = i + 1;
    }
    None
}

proof fn lemma_field_keys_len(s: Seq<(u128, CustomFieldValue)>)
    requires
        unique_keys(s),
    ensures
        field_map(s).dom().finite(),
        field_map(s).dom().len() == s.len(),
        field_map(s).dom() == keys(s).to_set(),
{
    let k = keys(s);
    assert(k.no_duplicates()) by {
        assert forall|i: int, j: int| 0 <= i < k.len() && 0 <= j < k.len() && i != j implies k[i]
            != k[j] by {}
    }
    k.unique_seq_to_set();
    assert forall|x: u128| field_map(s).dom().contains(x) <==> k.to_set().contains(x) by {
        if has_key(s, x) {
            let i = choose|i: int| 0 <= i < s.len() && s[i].0 == x;
            assert(k[i] == x);
        }
        if k.contains(x) {
            let i = choose|i: int| 0 <= i < k.len() && k[i] == x;
            assert(s[i].0 == x);
        }
    }
    assert(field_map(s).dom() =~= k.to_set());
}

fn same_fields(a: &Vec<(u128, CustomFieldValue)>, b: &Vec<(u128, CustomFieldValue)>) -> (same: bool)
    requires
        unique_keys(a@),
        unique_keys(b@),
    ensures
        same == (field_map(a@) == field_map(b@)),
{
    proof {
        lemma_field_keys_len(a@);
        lemma_field_keys_len(b@);
    }
    if a.len() != b.len() {
        proof {
            if field_map(a@) == field_map(b@) {
                assert(field_map(a@).dom() == field_map(b@).dom());
                assert(false);
            }
        }
        return false;
    }
    let mut i: usize = 0;
    while i < a.len()
        invariant
            a@.len() == b@.len(),
            unique_keys(a@),
            unique_keys(b@),
            i <= a@.len(),
            forall|j: int|
                0 <= j < i ==> has_key(b@, #[trigger] a@[j].0) && b@[key_index(
                    b@,
                    a@[j].0,
                )].1@ == a@[j].1@,
        decreases a.len() - i,
    {
        let id = a[i].0;
        match find_key(b, id) {
            None => {
                proof {
                    lemma_key_index(a@, i as int);
                    assert(field_map(a@).dom().contains(id));
                    assert(!field_map(b@).dom().contains(id));
                }
                return false;
            },
            Some(k) => {
                if !equal(&a[i].1, &b[k].1) {
                    proof {
                        lemma_key_index(a@, i as int);
                        assert(field_map(a@)[id] == a@[i as int].1@);
                        assert(field_map(b@)[id] == b@[k as int].1@);
                    }
                    return false;
                }
            },
        }
        i = i + 1;
    }
    proof {
        assert(field_map(a@).dom().subset_of(field_map(b@).dom())) by {
            assert forall|x: u128| field_map(a@).dom().contains(x) implies field_map(
                b@,
            ).dom().contains(x) by {
                let j = choose|j: int| 0 <= j < a@.len() && a@[j].0 == x;
                assert(has_key(b@, a@[j].0));
            }
        }
        lemma_subset_equality(field_map(a@).dom(), field_map(b@).dom());
        assert forall|x: u128| field_map(a@).dom().contains(x) implies field_map(a@)[x]
            == field_map(b@)[x] by {
            let j = choose|j: int| 0 <= j < a@.len() && a@[j].0 == x;
            lemma_key_index(a@, j);
        }
        assert(field_map(a@) =~= field_map(b@));
    }
    true
}


/// Copies a field vector value by value.
fn copy_fields(fields: &Vec<(u128, CustomFieldValue)>) -> (copy: Vec<(u128, CustomFieldValue)>)
    ensures
        copy@.len() == fields@.len(),
        forall|i: int|
            #![trigger copy@[i]]
            0 <= i < fields@.len() ==> copy@[i].0 == fields@[i].0 && copy@[i].1@ == fields@[i].1@,
{
    let mut copy: Vec<(u128, CustomFieldValue)> = Vec::new();
    let mut i: usize = 0;
    while i < fields.len()
        invariant
            i <= fields@.len(),
            copy@.len() == i,
            forall|j: int|
                #![trigger copy@[j]]
                0 <= j < i ==> copy@[j].0 == fields@[j].0 && copy@[j].1@ == fields@[j].1@,
        decreases fields.len() - i,
    {
        let v = fields[i].1.duplicate();
        copy.push((fields[i].0, v));
        i = i + 1;
    }
    copy
}

/// Entry-wise equal keyed vectors give the same field map.
proof fn lemma_copied_fields(s: Seq<(u128, CustomFieldValue)>, c: Seq<(u128, CustomFieldValue)>)
    requires
        unique_keys(s),
        c.len() == s.len(),
        forall|i: int| #![trigger c[i]] 0 <= i < s.len() ==> c[i].0 == s[i].0 && c[i].1@ == s[i].1@,
    ensures
        unique_keys(c),
        field_map(c) == field_map(s),
{
    assert forall|i: int, j: int| 0 <= i < c.len() && 0 <= j < c.len() && i != j implies c[i].0
        != c[j].0 by {
        assert(c[i].0 == s[i].0);
        assert(c[j].0 == s[j].0);
    }
    assert forall|k: u128| has_key(c, k) <==> has_key(s, k) by {
        if has_key(c, k) {
            let i = choose|i: int| 0 <= i < c.len() && c[i].0 == k;
            assert(c[i].0 == s[i].0);
        }
        if has_key(s, k) {
            let i = choose|i: int| 0 <= i < s.len() && s[i].0 == k;
            assert(c[i].0 == k);
        }
    }
    assert forall|k: u128| has_key(s, k) implies field_map(c)[k] == field_map(s)[k] by {
        let i = key_index(s, k);
        lemma_key_index(s, i);
        assert(c[i].0 == k);
        lemma_key_index(c, i);
    }
    assert(field_map(c) =~= field_map(s));
}

impl State {
    pub fn copy(&self) -> (copy: State)
        requires
            self.wf(),
        ensures
            copy.wf(),
            copy.tags@ == self.tags@,
            copy.field_values() == self.field_values(),
            keys(copy.fields@) == keys(self.fields@),
    {
        let mut tags = Vec::new();
        let mut i: usize = 0;
        while i < self.tags.len()
            invariant
                i <= self.tags@.len(),
                tags@ == self.tags@.take(i as int),
            decreases self.tags.len() - i,
        {
            tags.push(self.tags[i]);
            i = i + 1;
            assert(tags@ =~= self.tags@.take(i as int));
        }
        assert(tags@ =~= self.tags@);
        let fields = copy_fields(&self.fields);
        proof {
            lemma_copied_fields(self.fields@, fields@);
            assert(keys(fields@) =~= keys(self.fields@)) by {
                assert forall|i: int| 0 <= i < fields@.len() implies keys(fields@)[i] == keys(
                    self.fields@,
                )[i] by {
                    assert(fields@[i].0 == self.fields@[i].0);
                }
            }
        }
        State { tags, fields }
    }
}

#[derive(Clone)]
pub struct Snapshot {
    pub person: u128,
    pub revision: i64,
    pub head: Option<u128>,
    /// Complete native metadata, including unowned links and field values.
    pub state: State,
}

/// Positive immutable insertion proof, plus every source alias supporting the
/// link. Already-present native links never enter this map.
#[derive(Clone)]
pub struct Ownership {
    pub tags: Vec<(u128, Vec<Alias>)>,
    pub fields: Vec<u128>,
}

pub open spec fn own_map(s: Seq<(u128, Vec<Alias>)>) -> Map<u128, Set<Alias>> {
    Map::new(|k: u128| has_key(s, k), |k: u128| s[key_index(s, k)].1@.to_set())
}

impl Ownership {
    pub open spec fn wf(&self) -> bool {
        unique_keys(self.tags@) && self.fields@.no_duplicates()
    }

    pub open spec fn tag_support(&self) -> Map<u128, Set<Alias>> {
        own_map(self.tags@)
    }

    pub open spec fn field_set(&self) -> Set<u128> {
        self.fields@.to_set()
    }
}

pub enum Tags {
    Missing,
    Null,
    Complete(Vec<(Alias, u128)>),
    Held(Hold),
}

/// A source value with the native validity verdict of the custom-field value
/// rules (text normalization, number pattern, date range).
pub struct Candidate {
    pub value: CustomFieldValue,
    pub native_valid: bool,
}

pub enum FieldIntent {
    Missing,
    /// A source null without a qualified clear meaning is retained as unknown.
    UnknownNull,
    QualifiedClear,
    SetValue(Candidate),
    Held(Hold),
}

pub struct Source {
    pub tags: Tags,
    /// Vector preserves duplicate target claims so they cannot silently collapse
    /// into a map's last-writer-wins value.
    pub fields: Vec<(u128, FieldIntent)>,
}

#[derive(Clone)]
pub struct Field {
    pub kind: FieldType,
    pub live_options: Vec<u128>,
}

#[derive(Clone)]
pub struct Catalog {
    pub live_tags: Vec<u128>,
    pub live_fields: Vec<(u128, Field)>,
    /// Most tags a Person may carry.
    pub tag_limit: usize,
}

impl Catalog {
    pub open spec fn wf(&self) -> bool {
        unique_keys(self.live_fields@)
    }
}

pub enum Change {
    AddTag(u128),
    RemoveTag(u128),
    SetField(u128, CustomFieldValue),
    ClearField(u128),
}

pub enum ChangeView {
    AddTag(u128),
    RemoveTag(u128),
    SetField(u128, ValueView),
    ClearField(u128),
}

impl View for Change {
    type V = ChangeView;

    open spec fn view(&self) -> ChangeView {
        match self {
            Change::AddTag(t) => ChangeView::AddTag(*t),
            Change::RemoveTag(t) => ChangeView::RemoveTag(*t),
            Change::SetField(f, v) => ChangeView::SetField(*f, v@),
            Change::ClearField(f) => ChangeView::ClearField(*f),
        }
    }
}

pub open spec fn changes_view(changes: Seq<Change>) -> Seq<ChangeView> {
    changes.map_values(|c: Change| c@)
}

#[derive(Debug, Clone, Copy, PartialEq, Eq, Structural)]
pub enum Gap {
    MissingTags,
    NullTags,
    MissingField(u128),
    UnqualifiedNull(u128),
}

pub struct Proposal {
    pub person: u128,
    pub expected_revision: i64,
    pub expected_head: Option<u128>,
    pub changes: Vec<Change>,
    pub after: State,
    pub ownership: Ownership,
    pub counts: Counts,
    pub gaps: Vec<Gap>,
}

// ---------------------------------------------------------------------------
// Specification of a proposal.

/// Every proven owned link is a baseline link with at least one supporting
/// alias, and every owned field has a baseline value.
pub open spec fn ownership_within(baseline: State, o: Ownership) -> bool {
    &&& forall|i: int|
        0 <= i < o.tags@.len() ==> baseline.tags@.contains(#[trigger] o.tags@[i].0)
            && o.tags@[i].1@.len() > 0
    &&& forall|i: int| 0 <= i < o.fields@.len() ==> has_key(baseline.fields@, #[trigger] o.fields@[i])
}

/// One source alias supports two different owned links.
pub open spec fn aliases_shared(o: Ownership) -> bool {
    exists|i: int, j: int, a: int, b: int|
        0 <= i < o.tags@.len() && 0 <= j < o.tags@.len() && 0 <= a < o.tags@[i].1@.len() && 0
            <= b < o.tags@[j].1@.len() && #[trigger] o.tags@[i].1@[a] == #[trigger] o.tags@[j].1@[b]
            && o.tags@[i].0 != o.tags@[j].0
}

/// The whole-Person checks that precede any comparison.
pub open spec fn precheck(
    baseline: Option<Snapshot>,
    current: Option<Snapshot>,
    o: Ownership,
    first_coverage: bool,
) -> Option<Hold> {
    if !first_coverage {
        Some(Hold::FirstCoverageRequired)
    } else if baseline is None {
        Some(Hold::BaselineUnproven)
    } else if current is None {
        Some(Hold::TargetErased)
    } else {
        let b = baseline->0;
        let c = current->0;
        if b.person != c.person {
            Some(Hold::IdentityMismatch)
        } else if b.head != c.head {
            Some(Hold::StaleHead)
        } else if b.revision <= 0 || c.revision <= 0 {
            Some(Hold::BaselineUnproven)
        } else if b.revision != c.revision || !b.state.same_as(&c.state) {
            Some(Hold::LocalChange)
        } else if !ownership_within(b.state, o) || aliases_shared(o) {
            Some(Hold::BaselineUnproven)
        } else {
            None
        }
    }
}

/// The source names alias `a`.
pub open spec fn names(occ: Seq<(Alias, u128)>, a: Alias) -> bool {
    exists|i: int| 0 <= i < occ.len() && occ[i].0 == a
}

/// The catalog tag the source maps alias `a` to.
pub open spec fn target_of(occ: Seq<(Alias, u128)>, a: Alias) -> u128 {
    occ[choose|i: int| 0 <= i < occ.len() && occ[i].0 == a].1
}

/// Some source alias maps to tag `t`.
pub open spec fn targeted(occ: Seq<(Alias, u128)>, t: u128) -> bool {
    exists|i: int| 0 <= i < occ.len() && occ[i].1 == t
}

/// All source aliases mapped to tag `t`.
pub open spec fn support_of(occ: Seq<(Alias, u128)>, t: u128) -> Set<Alias> {
    Set::new(|a: Alias| exists|i: int| 0 <= i < occ.len() && occ[i].0 == a && occ[i].1 == t)
}

/// One alias is mapped to two different tags.
pub open spec fn source_conflict(occ: Seq<(Alias, u128)>) -> bool {
    exists|i: int, j: int|
        0 <= i < occ.len() && 0 <= j < occ.len() && #[trigger] occ[i].0 == #[trigger] occ[j].0
            && occ[i].1 != occ[j].1
}

/// Some source alias maps to a tag that is not live.
pub open spec fn dead_target(occ: Seq<(Alias, u128)>, live: Seq<u128>) -> bool {
    exists|i: int| 0 <= i < occ.len() && !live.contains(#[trigger] occ[i].1)
}

/// An owned link's alias is now mapped to another tag.
pub open spec fn moved(occ: Seq<(Alias, u128)>, support: Seq<Alias>, tag: u128) -> bool {
    exists|k: int| 0 <= k < support.len() && names(occ, #[trigger] support[k]) && target_of(occ, support[k]) != tag
}

/// No alias of an owned link is present any more and nothing maps to it.
pub open spec fn dropped(occ: Seq<(Alias, u128)>, support: Seq<Alias>, tag: u128) -> bool {
    !targeted(occ, tag) && forall|k: int| 0 <= k < support.len() ==> !names(occ, #[trigger] support[k])
}

/// Owned links to remove, in ownership order, or the first hold met.
pub open spec fn removals(
    owned: Seq<(u128, Vec<Alias>)>,
    occ: Seq<(Alias, u128)>,
    live: Seq<u128>,
) -> Result<Seq<u128>, Hold>
    decreases owned.len(),
{
    if owned.len() == 0 {
        Ok(Seq::empty())
    } else {
        match removals(owned.drop_last(), occ, live) {
            Err(h) => Err(h),
            Ok(r) => {
                let tag = owned.last().0;
                let support = owned.last().1@;
                if moved(occ, support, tag) {
                    Err(Hold::MappingRequired)
                } else if dropped(occ, support, tag) {
                    if !live.contains(tag) {
                        Err(Hold::TargetUnavailable)
                    } else {
                        Ok(r.push(tag))
                    }
                } else {
                    Ok(r)
                }
            },
        }
    }
}

/// Tags the source maps to that are absent after removals, in order of first
/// mention.
pub open spec fn additions(occ: Seq<(Alias, u128)>, kept: Set<u128>) -> Seq<u128>
    decreases occ.len(),
{
    if occ.len() == 0 {
        Seq::empty()
    } else {
        let r = additions(occ.drop_last(), kept);
        let t = occ.last().1;
        if targeted(occ.drop_last(), t) || kept.contains(t) {
            r
        } else {
            r.push(t)
        }
    }
}


/// The owned links after the tag stage: removed links leave; links newly added
/// for the source gain its supporting aliases; kept owned links that the
/// source still maps to remember every supporting alias.
pub open spec fn owned_after(
    om: Map<u128, Set<Alias>>,
    removed: Set<u128>,
    kept: Set<u128>,
    occ: Seq<(Alias, u128)>,
    seen: Seq<(Alias, u128)>,
) -> Map<u128, Set<Alias>> {
    Map::new(
        |k: u128| (om.contains_key(k) && !removed.contains(k)) || (targeted(seen, k) && !kept.contains(k)),
        |k: u128|
            if targeted(seen, k) && !kept.contains(k) {
                support_of(occ, k)
            } else if targeted(seen, k) {
                om[k].union(support_of(occ, k))
            } else {
                om[k]
            },
    )
}

pub open spec fn targets(occ: Seq<(Alias, u128)>) -> Set<u128> {
    Set::new(|t: u128| targeted(occ, t))
}

pub open spec fn remove_changes(r: Seq<u128>) -> Seq<ChangeView> {
    r.map_values(|t: u128| ChangeView::RemoveTag(t))
}

pub open spec fn add_changes(a: Seq<u128>) -> Seq<ChangeView> {
    a.map_values(|t: u128| ChangeView::AddTag(t))
}

/// `x` placed before the first element of `r` it is smaller than.
pub open spec fn insert_ascending(r: Seq<u128>, x: u128) -> Seq<u128>
    decreases r.len(),
{
    if r.len() == 0 {
        seq![x]
    } else if x < r[0] {
        seq![x] + r
    } else {
        seq![r[0]] + insert_ascending(r.drop_first(), x)
    }
}

/// The ids of `s` in ascending order (link changes are listed by id).
pub open spec fn ascending(s: Seq<u128>) -> Seq<u128>
    decreases s.len(),
{
    if s.len() == 0 {
        Seq::empty()
    } else {
        insert_ascending(ascending(s.drop_last()), s.last())
    }
}

/// The entries of a keyed vector in ascending key order: the order in which
/// the ordered map it stands for is walked.
pub open spec fn by_key<T>(s: Seq<(u128, T)>) -> Seq<(u128, T)> {
    ascending(keys(s)).map_values(|k: u128| s[key_index(s, k)])
}

pub struct TagOutcome {
    pub after: Set<u128>,
    pub owned: Map<u128, Set<Alias>>,
    pub changes: Seq<ChangeView>,
    pub removals: nat,
    pub gaps: Seq<Gap>,
    pub observed: bool,
}

/// The tag stage of a proposal.
pub open spec fn tag_stage(current: State, o: Ownership, tags: Tags, catalog: Catalog) -> Result<TagOutcome, Hold> {
    match tags {
        Tags::Held(h) => Err(h),
        Tags::Missing => Ok(
            TagOutcome {
                after: current.tag_set(),
                owned: o.tag_support(),
                changes: Seq::empty(),
                removals: 0,
                gaps: seq![Gap::MissingTags],
                observed: false,
            },
        ),
        Tags::Null => Ok(
            TagOutcome {
                after: current.tag_set(),
                owned: o.tag_support(),
                changes: Seq::empty(),
                removals: 0,
                gaps: seq![Gap::NullTags],
                observed: false,
            },
        ),
        Tags::Complete(v) => {
            let occ = v@;
            if source_conflict(occ) {
                Err(Hold::SourceConflict)
            } else if dead_target(occ, catalog.live_tags@) {
                Err(Hold::TargetUnavailable)
            } else {
                match removals(by_key(o.tags@), occ, catalog.live_tags@) {
                    Err(h) => Err(h),
                    Ok(r) => {
                        let kept = current.tag_set().difference(r.to_set());
                        let added = additions(occ, kept);
                        let after = kept.union(targets(occ));
                        if added.len() > 0 && after.len() > catalog.tag_limit {
                            Err(Hold::UnitTooLarge)
                        } else {
                            Ok(
                                TagOutcome {
                                    after,
                                    owned: owned_after(o.tag_support(), r.to_set(), kept, occ, occ),
                                    changes: remove_changes(ascending(r)) + add_changes(ascending(added)),
                                    removals: r.len(),
                                    gaps: Seq::empty(),
                                    observed: true,
                                },
                            )
                        }
                    },
                }
            }
        },
    }
}

pub struct FieldOutcome {
    pub after: Map<u128, ValueView>,
    pub owned: Set<u128>,
    pub changes: Seq<ChangeView>,
    pub clears: nat,
    pub gaps: Seq<Gap>,
    pub observed: bool,
}

pub open spec fn value_valid(candidate: Candidate, field: Field) -> bool {
    match candidate.value@ {
        ValueView::Choice(o) => field.live_options@.contains(o),
        _ => candidate.native_valid,
    }
}

/// One field intent of the source applied to the running outcome.
pub open spec fn field_step(
    earlier: Seq<(u128, FieldIntent)>,
    id: u128,
    intent: FieldIntent,
    current: Map<u128, ValueView>,
    owned: Set<u128>,
    catalog: Catalog,
    acc: FieldOutcome,
) -> Result<FieldOutcome, Hold> {
    if has_key(earlier, id) {
        Err(Hold::SourceConflict)
    } else {
        match intent {
            FieldIntent::Held(h) => Err(h),
            FieldIntent::Missing => Ok(FieldOutcome { gaps: acc.gaps.push(Gap::MissingField(id)), ..acc }),
            FieldIntent::UnknownNull => Ok(FieldOutcome { gaps: acc.gaps.push(Gap::UnqualifiedNull(id)), ..acc }),
            FieldIntent::QualifiedClear => if !has_key(catalog.live_fields@, id) {
                Err(Hold::TargetUnavailable)
            } else if current.contains_key(id) {
                if !owned.contains(id) {
                    Err(Hold::BaselineUnproven)
                } else {
                    Ok(
                        FieldOutcome {
                            after: acc.after.remove(id),
                            owned: acc.owned.remove(id),
                            changes: acc.changes.push(ChangeView::ClearField(id)),
                            clears: acc.clears + 1,
                            gaps: acc.gaps,
                            observed: true,
                        },
                    )
                }
            } else {
                Ok(FieldOutcome { observed: true, ..acc })
            },
            FieldIntent::SetValue(candidate) => if !has_key(catalog.live_fields@, id) {
                Err(Hold::TargetUnavailable)
            } else {
                let field = catalog.live_fields@[key_index(catalog.live_fields@, id)].1;
                if value_type(candidate.value@) != field.kind {
                    Err(Hold::MappingRequired)
                } else if !value_valid(candidate, field) {
                    Err(Hold::UnsupportedSource)
                } else if current.contains_key(id) && current[id] == candidate.value@ {
                    Ok(FieldOutcome { observed: true, ..acc })
                } else if current.contains_key(id) && !owned.contains(id) {
                    Err(Hold::BaselineUnproven)
                } else {
                    Ok(
                        FieldOutcome {
                            after: acc.after.insert(id, candidate.value@),
                            owned: acc.owned.insert(id),
                            changes: acc.changes.push(ChangeView::SetField(id, candidate.value@)),
                            clears: acc.clears,
                            gaps: acc.gaps,
                            observed: true,
                        },
                    )
                }
            },
        }
    }
}

/// The field stage: every source field intent in order, or the first hold met.
pub open spec fn field_stage(
    intents: Seq<(u128, FieldIntent)>,
    current: Map<u128, ValueView>,
    owned: Set<u128>,
    catalog: Catalog,
    start: FieldOutcome,
) -> Result<FieldOutcome, Hold>
    decreases intents.len(),
{
    if intents.len() == 0 {
        Ok(start)
    } else {
        match field_stage(intents.drop_last(), current, owned, catalog, start) {
            Err(h) => Err(h),
            Ok(acc) => field_step(
                intents.drop_last(),
                intents.last().0,
                intents.last().1,
                current,
                owned,
                catalog,
                acc,
            ),
        }
    }
}

pub struct ProposalView {
    pub person: u128,
    pub expected_revision: i64,
    pub expected_head: Option<u128>,
    pub changes: Seq<ChangeView>,
    pub after_tags: Set<u128>,
    pub after_fields: Map<u128, ValueView>,
    pub owned_tags: Map<u128, Set<Alias>>,
    pub owned_fields: Set<u128>,
    pub counts: Counts,
    pub gaps: Seq<Gap>,
}

pub open spec fn proposal_view(p: Proposal) -> ProposalView {
    ProposalView {
        person: p.person,
        expected_revision: p.expected_revision,
        expected_head: p.expected_head,
        changes: changes_view(p.changes@),
        after_tags: p.after.tag_set(),
        after_fields: p.after.field_values(),
        owned_tags: p.ownership.tag_support(),
        owned_fields: p.ownership.field_set(),
        counts: p.counts,
        gaps: p.gaps@,
    }
}

pub open spec fn proposal_counts(changes: nat, removals: nat, clears: nat) -> Counts {
    Counts {
        units: 1,
        inserts: 0,
        updates: if changes > 0 {
            1
        } else {
            0
        },
        already_current: if changes > 0 {
            0
        } else {
            1
        },
        held: 0,
        excluded: 0,
        tag_removals: removals as u64,
        field_clears: clears as u64,
        task_completions: 0,
        task_reopens: 0,
        history_corrections: 0,
        source_only: 0,
    }
}

/// The complete proposal decision for one Person.
pub open spec fn spec_propose(
    baseline: Option<Snapshot>,
    current: Option<Snapshot>,
    o: Ownership,
    source: Source,
    catalog: Catalog,
    first_coverage: bool,
) -> Result<ProposalView, Hold> {
    match precheck(baseline, current, o, first_coverage) {
        Some(h) => Err(h),
        None => {
            let c = current->0;
            match tag_stage(c.state, o, source.tags, catalog) {
                Err(h) => Err(h),
                Ok(t) => {
                    let start = FieldOutcome {
                        after: c.state.field_values(),
                        owned: o.field_set(),
                        changes: t.changes,
                        clears: 0,
                        gaps: t.gaps,
                        observed: t.observed,
                    };
                    match field_stage(source.fields@, c.state.field_values(), o.field_set(), catalog, start) {
                        Err(h) => Err(h),
                        Ok(f) => if !f.observed {
                            Err(Hold::SourceNotObserved)
                        } else {
                            Ok(
                                ProposalView {
                                    person: c.person,
                                    expected_revision: c.revision,
                                    expected_head: c.head,
                                    changes: f.changes,
                                    after_tags: t.after,
                                    after_fields: f.after,
                                    owned_tags: t.owned,
                                    owned_fields: f.owned,
                                    counts: proposal_counts(f.changes.len(), t.removals, f.clears),
                                    gaps: f.gaps,
                                },
                            )
                        },
                    }
                },
            }
        },
    }
}

pub open spec fn opt_snapshot(s: Option<&Snapshot>) -> Option<Snapshot> {
    match s {
        Some(x) => Some(*x),
        None => None,
    }
}

pub open spec fn result_view(r: Result<Proposal, Hold>) -> Result<ProposalView, Hold> {
    match r {
        Ok(p) => Ok(proposal_view(p)),
        Err(h) => Err(h),
    }
}

// ---------------------------------------------------------------------------
// Keyed-vector maps under updates.

proof fn lemma_field_map_remove(s: Seq<(u128, CustomFieldValue)>, i: int)
    requires
        unique_keys(s),
        0 <= i < s.len(),
    ensures
        unique_keys(s.remove(i)),
        field_map(s.remove(i)) == field_map(s).remove(s[i].0),
{
    lemma_remove_entry(s, i);
    assert(field_map(s.remove(i)) =~= field_map(s).remove(s[i].0));
}

proof fn lemma_field_map_push(s: Seq<(u128, CustomFieldValue)>, e: (u128, CustomFieldValue))
    requires
        unique_keys(s),
        !has_key(s, e.0),
    ensures
        unique_keys(s.push(e)),
        field_map(s.push(e)) == field_map(s).insert(e.0, e.1@),
{
    lemma_push_entry(s, e);
    assert(field_map(s.push(e)) =~= field_map(s).insert(e.0, e.1@));
}

proof fn lemma_field_map_update(s: Seq<(u128, CustomFieldValue)>, i: int, v: CustomFieldValue)
    requires
        unique_keys(s),
        0 <= i < s.len(),
    ensures
        unique_keys(s.update(i, (s[i].0, v))),
        field_map(s.update(i, (s[i].0, v))) == field_map(s).insert(s[i].0, v@),
{
    lemma_update_entry(s, i, v);
    lemma_key_index(s, i);
    assert(field_map(s.update(i, (s[i].0, v))) =~= field_map(s).insert(s[i].0, v@));
}

proof fn lemma_own_map_remove(s: Seq<(u128, Vec<Alias>)>, i: int)
    requires
        unique_keys(s),
        0 <= i < s.len(),
    ensures
        unique_keys(s.remove(i)),
        own_map(s.remove(i)) == own_map(s).remove(s[i].0),
{
    lemma_remove_entry(s, i);
    assert(own_map(s.remove(i)) =~= own_map(s).remove(s[i].0));
}

pub(crate) proof fn lemma_own_map_push(s: Seq<(u128, Vec<Alias>)>, e: (u128, Vec<Alias>))
    requires
        unique_keys(s),
        !has_key(s, e.0),
    ensures
        unique_keys(s.push(e)),
        own_map(s.push(e)) == own_map(s).insert(e.0, e.1@.to_set()),
{
    lemma_push_entry(s, e);
    assert(own_map(s.push(e)) =~= own_map(s).insert(e.0, e.1@.to_set()));
}

proof fn lemma_own_map_update(s: Seq<(u128, Vec<Alias>)>, i: int, v: Vec<Alias>)
    requires
        unique_keys(s),
        0 <= i < s.len(),
    ensures
        unique_keys(s.update(i, (s[i].0, v))),
        own_map(s.update(i, (s[i].0, v))) == own_map(s).insert(s[i].0, v@.to_set()),
{
    lemma_update_entry(s, i, v);
    lemma_key_index(s, i);
    assert(own_map(s.update(i, (s[i].0, v))) =~= own_map(s).insert(s[i].0, v@.to_set()));
}

/// Removing one element from a vector without repeats.
fn remove_id(v: &mut Vec<u128>, x: u128)
    requires
        old(v)@.no_duplicates(),
    ensures
        final(v)@.no_duplicates(),
        final(v)@.to_set() == old(v)@.to_set().remove(x),
{
    let mut i: usize = 0;
    while i < v.len()
        invariant
            i <= v@.len(),
            v@ == old(v)@,
            old(v)@.no_duplicates(),
            forall|j: int| 0 <= j < i ==> v@[j] != x,
        decreases v.len() - i,
    {
        if v[i] == x {
            let ghost before = v@;
            v.remove(i);
            proof {
                assert forall|a: int, b: int| 0 <= a < v@.len() && 0 <= b < v@.len() && a != b implies v@[a] != v@[b] by {
                    let a2 = if a < i { a } else { a + 1 };
                    let b2 = if b < i { b } else { b + 1 };
                    assert(v@[a] == before[a2] && v@[b] == before[b2]);
                }
                assert forall|y: u128| v@.to_set().contains(y) <==> before.to_set().remove(x).contains(y) by {
                    if v@.contains(y) {
                        let k = choose|k: int| 0 <= k < v@.len() && v@[k] == y;
                        let k2 = if k < i { k } else { k + 1 };
                        assert(before[k2] == y);
                    }
                    if before.contains(y) && y != x {
                        let k = choose|k: int| 0 <= k < before.len() && before[k] == y;
                        if k < i {
                            assert(v@[k] == y);
                        } else {
                            assert(k != i);
                            assert(v@[k - 1] == y);
                        }
                    }
                }
                assert(v@.to_set() =~= before.to_set().remove(x));
            }
            return;
        }
        i = i + 1;
    }
    assert(v@.to_set() =~= old(v)@.to_set().remove(x));
}

/// Adds an element to a vector without repeats unless already present.
pub(crate) fn insert_id(v: &mut Vec<u128>, x: u128)
    requires
        old(v)@.no_duplicates(),
    ensures
        final(v)@.no_duplicates(),
        final(v)@.to_set() == old(v)@.to_set().insert(x),
{
    if !contains_id(v, x) {
        v.push(x);
        assert(v@.to_set() =~= old(v)@.to_set().insert(x)) by {
            assert forall|y: u128| v@.contains(y) <==> (old(v)@.contains(y) || y == x) by {
                if v@.contains(y) {
                    let k = choose|k: int| 0 <= k < v@.len() && v@[k] == y;
                    if k < old(v)@.len() {
                        assert(old(v)@[k] == y);
                    }
                }
                if old(v)@.contains(y) {
                    let k = choose|k: int| 0 <= k < old(v)@.len() && old(v)@[k] == y;
                    assert(v@[k] == y);
                }
                if y == x {
                    assert(v@[old(v)@.len() as int] == x);
                }
            }
        }
    } else {
        assert(old(v)@.to_set() =~= old(v)@.to_set().insert(x));
    }
}

fn alias_listed(v: &Vec<Alias>, a: Alias) -> (found: bool)
    ensures
        found == v@.contains(a),
{
    let mut i: usize = 0;
    while i < v.len()
        invariant
            i <= v@.len(),
            forall|j: int| 0 <= j < i ==> v@[j] != a,
        decreases v.len() - i,
    {
        if v[i] == a {
            assert(v@[i as int] == a);
            return true;
        }
        i = i + 1;
    }
    false
}

// ---------------------------------------------------------------------------
// Whole-Person checks.

pub(crate) fn within(baseline: &State, o: &Ownership) -> (ok: bool)
    requires
        baseline.wf(),
    ensures
        ok == ownership_within(*baseline, *o),
{
    let mut i: usize = 0;
    while i < o.tags.len()
        invariant
            baseline.wf(),
            i <= o.tags@.len(),
            forall|j: int|
                #![trigger o.tags@[j]]
                0 <= j < i ==> baseline.tags@.contains(o.tags@[j].0) && o.tags@[j].1@.len() > 0,
        decreases o.tags.len() - i,
    {
        if !contains_id(&baseline.tags, o.tags[i].0) || o.tags[i].1.len() == 0 {
            return false;
        }
        assert(baseline.tags@.contains(o.tags@[i as int].0) && o.tags@[i as int].1@.len() > 0);
        i = i + 1;
    }
    let mut k: usize = 0;
    while k < o.fields.len()
        invariant
            baseline.wf(),
            k <= o.fields@.len(),
            forall|j: int| 0 <= j < k ==> has_key(baseline.fields@, #[trigger] o.fields@[j]),
        decreases o.fields.len() - k,
    {
        if find_key(&baseline.fields, o.fields[k]).is_none() {
            return false;
        }
        k = k + 1;
    }
    true
}

pub(crate) fn shares(o: &Ownership) -> (shared: bool)
    ensures
        shared == aliases_shared(*o),
{
    let n = o.tags.len();
    let mut i: usize = 0;
    while i < n
        invariant
            n == o.tags@.len(),
            i <= n,
            forall|i2: int, j: int, a: int, b: int|
                0 <= i2 < i && 0 <= j < n && 0 <= a < o.tags@[i2].1@.len() && 0 <= b
                    < o.tags@[j].1@.len() && #[trigger] o.tags@[i2].1@[a] == #[trigger] o.tags@[j].1@[b]
                    ==> o.tags@[i2].0 == o.tags@[j].0,
        decreases n - i,
    {
        let m = o.tags[i].1.len();
        let mut a: usize = 0;
        while a < m
            invariant
                n == o.tags@.len(),
                i < n,
                m == o.tags@[i as int].1@.len(),
                a <= m,
                forall|i2: int, j: int, a2: int, b: int|
                    0 <= i2 < i && 0 <= j < n && 0 <= a2 < o.tags@[i2].1@.len() && 0 <= b
                        < o.tags@[j].1@.len() && #[trigger] o.tags@[i2].1@[a2] == #[trigger] o.tags@[j].1@[b]
                        ==> o.tags@[i2].0 == o.tags@[j].0,
                forall|j: int, a2: int, b: int|
                    0 <= j < n && 0 <= a2 < a && 0 <= b < o.tags@[j].1@.len() && #[trigger] o.tags@[i as int].1@[a2]
                        == #[trigger] o.tags@[j].1@[b] ==> o.tags@[i as int].0 == o.tags@[j].0,
            decreases m - a,
        {
            let alias = o.tags[i].1[a];
            let mut j: usize = 0;
            while j < n
                invariant
                    n == o.tags@.len(),
                    i < n,
                    m == o.tags@[i as int].1@.len(),
                    a < m,
                    alias == o.tags@[i as int].1@[a as int],
                    j <= n,
                    forall|i2: int, j2: int, a2: int, b: int|
                        0 <= i2 < i && 0 <= j2 < n && 0 <= a2 < o.tags@[i2].1@.len() && 0 <= b
                            < o.tags@[j2].1@.len() && #[trigger] o.tags@[i2].1@[a2] == #[trigger] o.tags@[j2].1@[b]
                            ==> o.tags@[i2].0 == o.tags@[j2].0,
                    forall|j2: int, a2: int, b: int|
                        0 <= j2 < n && 0 <= a2 < a && 0 <= b < o.tags@[j2].1@.len() && #[trigger] o.tags@[i as int].1@[a2]
                            == #[trigger] o.tags@[j2].1@[b] ==> o.tags@[i as int].0 == o.tags@[j2].0,
                    forall|j2: int, b: int|
                        0 <= j2 < j && 0 <= b < o.tags@[j2].1@.len() && alias == #[trigger] o.tags@[j2].1@[b]
                            ==> o.tags@[i as int].0 == o.tags@[j2].0,
                decreases n - j,
            {
                if o.tags[j].0 != o.tags[i].0 && alias_listed(&o.tags[j].1, alias) {
                    proof {
                        let b = choose|b: int| 0 <= b < o.tags@[j as int].1@.len() && o.tags@[j as int].1@[b] == alias;
                        assert(o.tags@[i as int].1@[a as int] == o.tags@[j as int].1@[b]);
                    }
                    return true;
                }
                j = j + 1;
            }
            a = a + 1;
        }
        i = i + 1;
    }
    false
}

// ---------------------------------------------------------------------------
// Tag stage.

proof fn lemma_target_of(occ: Seq<(Alias, u128)>, i: int)
    requires
        !source_conflict(occ),
        0 <= i < occ.len(),
    ensures
        names(occ, occ[i].0),
        target_of(occ, occ[i].0) == occ[i].1,
{
    assert(names(occ, occ[i].0));
    let j = choose|j: int| 0 <= j < occ.len() && occ[j].0 == occ[i].0;
    assert(occ[i].0 == occ[j].0);
}

fn has_source_conflict(occ: &Vec<(Alias, u128)>) -> (conflict: bool)
    ensures
        conflict == source_conflict(occ@),
{
    let n = occ.len();
    let mut i: usize = 0;
    while i < n
        invariant
            n == occ@.len(),
            i <= n,
            forall|i2: int, j: int|
                0 <= i2 < i && 0 <= j < n && #[trigger] occ@[i2].0 == #[trigger] occ@[j].0 ==> occ@[i2].1
                    == occ@[j].1,
        decreases n - i,
    {
        let mut j: usize = 0;
        while j < n
            invariant
                n == occ@.len(),
                i < n,
                j <= n,
                forall|i2: int, j2: int|
                    0 <= i2 < i && 0 <= j2 < n && #[trigger] occ@[i2].0 == #[trigger] occ@[j2].0
                        ==> occ@[i2].1 == occ@[j2].1,
                forall|j2: int|
                    0 <= j2 < j && occ@[i as int].0 == #[trigger] occ@[j2].0 ==> occ@[i as int].1
                        == occ@[j2].1,
            decreases n - j,
        {
            if occ[i].0 == occ[j].0 && occ[i].1 != occ[j].1 {
                return true;
            }
            j = j + 1;
        }
        i = i + 1;
    }
    false
}

fn has_dead_target(occ: &Vec<(Alias, u128)>, live: &Vec<u128>) -> (dead: bool)
    ensures
        dead == dead_target(occ@, live@),
{
    let mut i: usize = 0;
    while i < occ.len()
        invariant
            i <= occ@.len(),
            forall|j: int| 0 <= j < i ==> live@.contains(#[trigger] occ@[j].1),
        decreases occ.len() - i,
    {
        if !contains_id(live, occ[i].1) {
            return true;
        }
        i = i + 1;
    }
    false
}

/// Index of the first mention of an alias.
fn named_at(occ: &Vec<(Alias, u128)>, a: Alias) -> (at: Option<usize>)
    ensures
        at is None <==> !names(occ@, a),
        at matches Some(i) ==> i < occ@.len() && occ@[i as int].0 == a,
{
    let mut i: usize = 0;
    while i < occ.len()
        invariant
            i <= occ@.len(),
            forall|j: int| 0 <= j < i ==> occ@[j].0 != a,
        decreases occ.len() - i,
    {
        if occ[i].0 == a {
            return Some(i);
        }
        i = i + 1;
    }
    None
}

/// Whether some alias among the first `end` mentions maps to `t`.
fn targeted_before(occ: &Vec<(Alias, u128)>, end: usize, t: u128) -> (found: bool)
    requires
        end <= occ@.len(),
    ensures
        found == targeted(occ@.take(end as int), t),
{
    let mut i: usize = 0;
    while i < end
        invariant
            end <= occ@.len(),
            i <= end,
            forall|j: int| 0 <= j < i ==> occ@[j].1 != t,
        decreases end - i,
    {
        if occ[i].1 == t {
            assert(occ@.take(end as int)[i as int].1 == t);
            return true;
        }
        i = i + 1;
    }
    proof {
        if targeted(occ@.take(end as int), t) {
            let j = choose|j: int| 0 <= j < end && occ@.take(end as int)[j].1 == t;
            assert(occ@[j].1 == t);
        }
    }
    false
}

/// All source aliases that map to `t`.
fn support_vec(occ: &Vec<(Alias, u128)>, t: u128) -> (support: Vec<Alias>)
    ensures
        support@.to_set() == support_of(occ@, t),
{
    let mut support: Vec<Alias> = Vec::new();
    let mut i: usize = 0;
    while i < occ.len()
        invariant
            i <= occ@.len(),
            forall|a: Alias| support@.contains(a) <==> (exists|j: int| 0 <= j < i && occ@[j].0 == a && occ@[j].1 == t),
        decreases occ.len() - i,
    {
        if occ[i].1 == t {
            let ghost before = support@;
            support.push(occ[i].0);
            proof {
                assert forall|a: Alias| support@.contains(a) <==> (exists|j: int| 0 <= j < i + 1 && occ@[j].0 == a && occ@[j].1 == t) by {
                    if support@.contains(a) {
                        let k = choose|k: int| 0 <= k < support@.len() && support@[k] == a;
                        if k < before.len() {
                            assert(before[k] == a);
                            assert(before.contains(a));
                        } else {
                            assert(occ@[i as int].0 == a);
                        }
                    }
                    if exists|j: int| 0 <= j < i + 1 && occ@[j].0 == a && occ@[j].1 == t {
                        let j = choose|j: int| 0 <= j < i + 1 && occ@[j].0 == a && occ@[j].1 == t;
                        if j < i {
                            assert(exists|j2: int| 0 <= j2 < i && occ@[j2].0 == a && occ@[j2].1 == t);
                            assert(before.contains(a));
                            let k = choose|k: int| 0 <= k < before.len() && before[k] == a;
                            assert(support@[k] == a);
                        } else {
                            assert(support@[before.len() as int] == a);
                        }
                    }
                }
            }
        }
        i = i + 1;
    }
    assert(support@.to_set() =~= support_of(occ@, t));
    support
}

fn is_moved(occ: &Vec<(Alias, u128)>, support: &Vec<Alias>, tag: u128) -> (m: bool)
    requires
        !source_conflict(occ@),
    ensures
        m == moved(occ@, support@, tag),
{
    let mut k: usize = 0;
    while k < support.len()
        invariant
            !source_conflict(occ@),
            k <= support@.len(),
            forall|j: int| 0 <= j < k ==> !(names(occ@, #[trigger] support@[j]) && target_of(occ@, support@[j]) != tag),
        decreases support.len() - k,
    {
        match named_at(occ, support[k]) {
            Some(i) => {
                proof {
                    lemma_target_of(occ@, i as int);
                }
                if occ[i].1 != tag {
                    return true;
                }
            },
            None => {},
        }
        k = k + 1;
    }
    false
}

fn is_dropped(occ: &Vec<(Alias, u128)>, support: &Vec<Alias>, tag: u128) -> (d: bool)
    ensures
        d == dropped(occ@, support@, tag),
{
    if targeted_before(occ, occ.len(), tag) {
        assert(occ@.take(occ@.len() as int) =~= occ@);
        return false;
    }
    assert(occ@.take(occ@.len() as int) =~= occ@);
    let mut k: usize = 0;
    while k < support.len()
        invariant
            k <= support@.len(),
            forall|j: int| 0 <= j < k ==> !names(occ@, #[trigger] support@[j]),
        decreases support.len() - k,
    {
        if named_at(occ, support[k]).is_some() {
            return false;
        }
        k = k + 1;
    }
    true
}

fn removal_list(
    owned: &Vec<(u128, Vec<Alias>)>,
    order: &Vec<usize>,
    occ: &Vec<(Alias, u128)>,
    live: &Vec<u128>,
) -> (r: Result<Vec<u128>, Hold>)
    requires
        !source_conflict(occ@),
        order@.len() == owned@.len(),
        forall|j: int|
            0 <= j < order@.len() ==> #[trigger] order@[j] < owned@.len() && owned@[order@[j] as int] == by_key(
                owned@,
            )[j],
    ensures
        match r {
            Ok(v) => removals(by_key(owned@), occ@, live@) == Ok::<Seq<u128>, Hold>(v@),
            Err(h) => removals(by_key(owned@), occ@, live@) == Err::<Seq<u128>, Hold>(h),
        },
{
    let ghost walk = by_key(owned@);
    proof {
        lemma_by_key(owned@);
    }
    let mut out: Vec<u128> = Vec::new();
    let mut i: usize = 0;
    while i < order.len()
        invariant
            !source_conflict(occ@),
            walk == by_key(owned@),
            walk.len() == order@.len(),
            order@.len() == owned@.len(),
            forall|j: int|
                0 <= j < order@.len() ==> #[trigger] order@[j] < owned@.len() && owned@[order@[j] as int] == walk[j],
            i <= walk.len(),
            removals(walk.take(i as int), occ@, live@) == Ok::<Seq<u128>, Hold>(out@),
        decreases order.len() - i,
    {
        let ghost prefix = walk.take(i as int + 1);
        assert(prefix.drop_last() =~= walk.take(i as int));
        assert(prefix.last() == walk[i as int]);
        let at = order[i];
        assert(owned@[at as int] == walk[i as int]);
        let tag = owned[at].0;
        if is_moved(occ, &owned[at].1, tag) {
            proof {
                if i + 1 < walk.len() {
                    lemma_removals_error_sticks(walk, occ@, live@, i as int + 1, Hold::MappingRequired);
                } else {
                    assert(walk.take(i as int + 1) =~= walk);
                }
            }
            return Err(Hold::MappingRequired);
        }
        if is_dropped(occ, &owned[at].1, tag) {
            if !contains_id(live, tag) {
                proof {
                    if i + 1 < walk.len() {
                        lemma_removals_error_sticks(walk, occ@, live@, i as int + 1, Hold::TargetUnavailable);
                    } else {
                        assert(walk.take(i as int + 1) =~= walk);
                    }
                }
                return Err(Hold::TargetUnavailable);
            }
            out.push(tag);
        }
        i = i + 1;
    }
    assert(walk.take(walk.len() as int) =~= walk);
    Ok(out)
}

/// The entries of a keyed vector are walked in ascending key order.
proof fn lemma_by_key<T>(s: Seq<(u128, T)>)
    ensures
        by_key(s).len() == s.len(),
        forall|j: int|
            0 <= j < s.len() ==> has_key(s, #[trigger] by_key(s)[j].0) && by_key(s)[j] == s[key_index(
                s,
                by_key(s)[j].0,
            )],
{
    let ks = keys(s);
    lemma_ascending_members(ks);
    assert forall|j: int| 0 <= j < s.len() implies has_key(s, #[trigger] by_key(s)[j].0) && by_key(s)[j]
        == s[key_index(s, by_key(s)[j].0)] by {
        let k = ascending(ks)[j];
        assert(ascending(ks).contains(k));
        let i = choose|i: int| 0 <= i < ks.len() && ks[i] == k;
        assert(s[i].0 == k);
        assert(has_key(s, k));
        let m = key_index(s, k);
        assert(s[m].0 == k);
        assert(by_key(s)[j] == s[m]);
    }
}

/// The positions of the entries of a keyed vector in ascending key order.
fn key_order<T>(entries: &Vec<(u128, T)>) -> (order: Vec<usize>)
    requires
        unique_keys(entries@),
    ensures
        order@.len() == entries@.len(),
        forall|j: int|
            0 <= j < order@.len() ==> #[trigger] order@[j] < entries@.len() && entries@[order@[j] as int]
                == by_key(entries@)[j],
{
    let mut ks: Vec<u128> = Vec::new();
    let mut i: usize = 0;
    while i < entries.len()
        invariant
            i <= entries@.len(),
            ks@ == keys(entries@).take(i as int),
        decreases entries.len() - i,
    {
        ks.push(entries[i].0);
        proof {
            assert(ks@ =~= keys(entries@).take(i as int + 1));
        }
        i = i + 1;
    }
    assert(ks@ =~= keys(entries@));
    let sorted = sort_ids(&ks);
    proof {
        lemma_by_key(entries@);
        lemma_ascending_members(keys(entries@));
    }
    let mut order: Vec<usize> = Vec::new();
    let mut j: usize = 0;
    while j < sorted.len()
        invariant
            sorted@ == ascending(keys(entries@)),
            sorted@.len() == entries@.len(),
            by_key(entries@).len() == entries@.len(),
            unique_keys(entries@),
            j <= sorted@.len(),
            order@.len() == j,
            forall|a: int|
                0 <= a < j ==> #[trigger] order@[a] < entries@.len() && entries@[order@[a] as int] == by_key(
                    entries@,
                )[a],
            forall|a: int|
                0 <= a < entries@.len() ==> has_key(entries@, #[trigger] by_key(entries@)[a].0) && by_key(
                    entries@,
                )[a] == entries@[key_index(entries@, by_key(entries@)[a].0)],
        decreases sorted.len() - j,
    {
        let k = sorted[j];
        proof {
            lemma_ascending_members(keys(entries@));
            assert(ascending(keys(entries@))[j as int] == k);
            assert(ascending(keys(entries@)).contains(k));
            assert(keys(entries@).contains(k));
            let i = choose|i: int| 0 <= i < keys(entries@).len() && keys(entries@)[i] == k;
            assert(entries@[i].0 == k);
            assert(has_key(entries@, k));
            assert(by_key(entries@)[j as int] == entries@[key_index(entries@, k)]);
        }
        match find_key(entries, k) {
            Some(at) => {
                order.push(at);
            },
            None => {
                assert(false);
                order.push(0);
            },
        }
        j = j + 1;
    }
    order
}

/// Once a prefix of the ownership holds, the whole does.
proof fn lemma_removals_error_sticks(
    owned: Seq<(u128, Vec<Alias>)>,
    occ: Seq<(Alias, u128)>,
    live: Seq<u128>,
    n: int,
    h: Hold,
)
    requires
        0 <= n <= owned.len(),
        removals(owned.take(n), occ, live) == Err::<Seq<u128>, Hold>(h),
    ensures
        removals(owned, occ, live) == Err::<Seq<u128>, Hold>(h),
    decreases owned.len() - n,
{
    if n < owned.len() {
        assert(owned.take(n + 1).drop_last() =~= owned.take(n));
        lemma_removals_error_sticks(owned, occ, live, n + 1, h);
    } else {
        assert(owned.take(n) =~= owned);
    }
}

/// Copies the aliases of one owned link.
fn copy_aliases(v: &Vec<Alias>) -> (copy: Vec<Alias>)
    ensures
        copy@ == v@,
{
    let mut copy: Vec<Alias> = Vec::new();
    let mut i: usize = 0;
    while i < v.len()
        invariant
            i <= v@.len(),
            copy@ == v@.take(i as int),
        decreases v.len() - i,
    {
        copy.push(v[i]);
        i = i + 1;
        assert(copy@ =~= v@.take(i as int));
    }
    assert(copy@ =~= v@);
    copy
}

/// Copies the owned links of an ownership record.
fn copy_owned(v: &Vec<(u128, Vec<Alias>)>) -> (copy: Vec<(u128, Vec<Alias>)>)
    requires
        unique_keys(v@),
    ensures
        unique_keys(copy@),
        own_map(copy@) == own_map(v@),
        keys(copy@) == keys(v@),
{
    let mut copy: Vec<(u128, Vec<Alias>)> = Vec::new();
    let mut i: usize = 0;
    while i < v.len()
        invariant
            i <= v@.len(),
            copy@.len() == i,
            forall|j: int| #![trigger copy@[j]] 0 <= j < i ==> copy@[j].0 == v@[j].0 && copy@[j].1@ == v@[j].1@,
        decreases v.len() - i,
    {
        let aliases = copy_aliases(&v[i].1);
        copy.push((v[i].0, aliases));
        i = i + 1;
    }
    proof {
        let c = copy@;
        let s = v@;
        assert forall|a: int, b: int| 0 <= a < c.len() && 0 <= b < c.len() && a != b implies c[a].0 != c[b].0 by {
            assert(c[a].0 == s[a].0);
            assert(c[b].0 == s[b].0);
        }
        assert forall|k: u128| has_key(c, k) <==> has_key(s, k) by {
            if has_key(c, k) {
                let a = choose|a: int| 0 <= a < c.len() && c[a].0 == k;
                assert(c[a].0 == s[a].0);
            }
            if has_key(s, k) {
                let a = choose|a: int| 0 <= a < s.len() && s[a].0 == k;
                assert(c[a].0 == k);
            }
        }
        assert forall|k: u128| has_key(s, k) implies own_map(c)[k] == own_map(s)[k] by {
            let a = key_index(s, k);
            lemma_key_index(s, a);
            assert(c[a].0 == k);
            lemma_key_index(c, a);
        }
        assert(own_map(c) =~= own_map(s));
        assert(keys(c) =~= keys(s)) by {
            assert forall|a: int| 0 <= a < c.len() implies keys(c)[a] == keys(s)[a] by {
                assert(c[a].0 == s[a].0);
            }
        }
    }
    copy
}

proof fn lemma_changes_push(c: Seq<Change>, x: Change)
    ensures
        changes_view(c.push(x)) == changes_view(c).push(x@),
{
    assert(changes_view(c.push(x)) =~= changes_view(c).push(x@));
}

/// Takes the removed owned links out of the running tags and ownership.
fn apply_removals(
    tags: &mut Vec<u128>,
    owned: &mut Vec<(u128, Vec<Alias>)>,
    changes: &mut Vec<Change>,
    r: &Vec<u128>,
)
    requires
        old(tags)@.no_duplicates(),
        unique_keys(old(owned)@),
    ensures
        final(tags)@.no_duplicates(),
        final(tags)@.to_set() == old(tags)@.to_set().difference(r@.to_set()),
        unique_keys(final(owned)@),
        own_map(final(owned)@) == own_map(old(owned)@).remove_keys(r@.to_set()),
        changes_view(final(changes)@) == changes_view(old(changes)@) + remove_changes(r@),
{
    let ghost tags0 = tags@.to_set();
    let ghost own0 = own_map(owned@);
    let ghost ch0 = changes_view(changes@);
    let mut j: usize = 0;
    assert(r@.take(0).to_set() =~= Set::<u128>::empty());
    assert(tags0.difference(Set::<u128>::empty()) =~= tags0);
    assert(own0.remove_keys(Set::<u128>::empty()) =~= own0);
    assert(remove_changes(r@.take(0)) =~= Seq::<ChangeView>::empty());
    assert(ch0 + Seq::<ChangeView>::empty() =~= ch0);
    while j < r.len()
        invariant
            j <= r@.len(),
            tags@.no_duplicates(),
            tags@.to_set() == tags0.difference(r@.take(j as int).to_set()),
            unique_keys(owned@),
            own_map(owned@) == own0.remove_keys(r@.take(j as int).to_set()),
            changes_view(changes@) == ch0 + remove_changes(r@.take(j as int)),
        decreases r.len() - j,
    {
        let t = r[j];
        let ghost gone = r@.take(j as int).to_set();
        proof {
            r@.take(j as int).lemma_push_to_set_commute(t);
            assert(r@.take(j as int + 1) =~= r@.take(j as int).push(t));
        }
        remove_id(tags, t);
        assert(tags@.to_set() =~= tags0.difference(gone.insert(t)));
        match find_key(owned, t) {
            Some(i) => {
                proof {
                    lemma_own_map_remove(owned@, i as int);
                }
                owned.remove(i);
            },
            None => {},
        }
        assert(own_map(owned@) =~= own0.remove_keys(gone.insert(t)));
        let ghost before = changes@;
        changes.push(Change::RemoveTag(t));
        proof {
            lemma_changes_push(before, Change::RemoveTag(t));
            assert(remove_changes(r@.take(j as int + 1)) =~= remove_changes(r@.take(j as int)).push(
                ChangeView::RemoveTag(t),
            ));
            assert(changes_view(changes@) =~= ch0 + remove_changes(r@.take(j as int + 1)));
        }
        j = j + 1;
    }
    assert(r@.take(r@.len() as int) =~= r@);
}

/// Adds the tags the source maps to that are not present yet, with positive
/// ownership, and records every supporting alias of kept owned links.
fn apply_additions(
    occ: &Vec<(Alias, u128)>,
    tags: &mut Vec<u128>,
    owned: &mut Vec<(u128, Vec<Alias>)>,
    changes: &mut Vec<Change>,
    Ghost(kept): Ghost<Set<u128>>,
    Ghost(om): Ghost<Map<u128, Set<Alias>>>,
    Ghost(removed): Ghost<Set<u128>>,
)
    requires
        old(tags)@.no_duplicates(),
        old(tags)@.to_set() == kept,
        unique_keys(old(owned)@),
        own_map(old(owned)@) == om.remove_keys(removed),
        forall|k: u128| kept.contains(k) ==> !removed.contains(k),
        forall|k: u128| om.contains_key(k) && !removed.contains(k) ==> kept.contains(k),
    ensures
        final(tags)@.no_duplicates(),
        final(tags)@.to_set() == kept.union(targets(occ@)),
        unique_keys(final(owned)@),
        own_map(final(owned)@) == owned_after(om, removed, kept, occ@, occ@),
        changes_view(final(changes)@) == changes_view(old(changes)@) + add_changes(
            additions(occ@, kept),
        ),
{
    let ghost ch0 = changes_view(changes@);
    proof {
        assert(targets(occ@.take(0)) =~= Set::<u128>::empty());
        assert(kept.union(Set::<u128>::empty()) =~= kept);
        assert(owned_after(om, removed, kept, occ@, occ@.take(0)) =~= om.remove_keys(removed));
        assert(additions(occ@.take(0), kept) =~= Seq::<u128>::empty());
        assert(ch0 + add_changes(Seq::<u128>::empty()) =~= ch0);
    }
    let mut n: usize = 0;
    while n < occ.len()
        invariant
            n <= occ@.len(),
            tags@.no_duplicates(),
            tags@.to_set() == kept.union(targets(occ@.take(n as int))),
            unique_keys(owned@),
            own_map(owned@) == owned_after(om, removed, kept, occ@, occ@.take(n as int)),
            changes_view(changes@) == ch0 + add_changes(additions(occ@.take(n as int), kept)),
            forall|k: u128| kept.contains(k) ==> !removed.contains(k),
            forall|k: u128| om.contains_key(k) && !removed.contains(k) ==> kept.contains(k),
        decreases occ.len() - n,
    {
        let ghost seen = occ@.take(n as int);
        let ghost next = occ@.take(n as int + 1);
        let t = occ[n].1;
        let ghost after0 = owned_after(om, removed, kept, occ@, seen);
        let ghost after1 = owned_after(om, removed, kept, occ@, next);
        proof {
            assert(next.drop_last() =~= seen);
            assert(next.last() == occ@[n as int]);
            assert forall|k: u128| targeted(next, k) <==> (targeted(seen, k) || k == t) by {
                if targeted(next, k) {
                    let a = choose|a: int| 0 <= a < next.len() && next[a].1 == k;
                    if a < n {
                        assert(seen[a].1 == k);
                    }
                }
                if targeted(seen, k) {
                    let a = choose|a: int| 0 <= a < seen.len() && seen[a].1 == k;
                    assert(next[a].1 == k);
                }
                if k == t {
                    assert(next[n as int].1 == k);
                }
            }
            assert(targets(next) =~= targets(seen).insert(t));
        }
        if targeted_before(occ, n, t) {
            proof {
                assert(after1 =~= after0);
                assert(kept.union(targets(next)) =~= kept.union(targets(seen)));
            }
        } else if contains_id(tags, t) {
            proof {
                assert(tags@.to_set().contains(t));
                assert(!targets(seen).contains(t));
                assert(kept.contains(t));
                assert(kept.union(targets(next)) =~= kept.union(targets(seen)));
            }
            match find_key(owned, t) {
                Some(i) => {
                    let mut merged = copy_aliases(&owned[i].1);
                    let mut extra = support_vec(occ, t);
                    let ghost first = merged@;
                    let ghost second = extra@;
                    merged.append(&mut extra);
                    let ghost old_owned = owned@;
                    let ghost mset = merged@.to_set();
                    proof {
                        seq_to_set_distributes_over_add(first, second);
                        lemma_own_map_update(owned@, i as int, merged);
                        assert(owned@[i as int].0 == t);
                        assert(own_map(old_owned).contains_key(t));
                        assert(after0.contains_key(t));
                        assert(om.contains_key(t) && !removed.contains(t));
                        assert(own_map(old_owned)[t] == first.to_set());
                        assert(after0[t] == om[t]);
                        assert(mset == om[t].union(support_of(occ@, t)));
                    }
                    owned.set(i, (t, merged));
                    proof {
                        assert(own_map(owned@) == own_map(old_owned).insert(t, mset));
                        assert(own_map(owned@) =~= after1);
                    }
                },
                None => {
                    proof {
                        assert(!own_map(owned@).contains_key(t));
                        assert(!after0.contains_key(t));
                        assert(!after1.contains_key(t));
                        assert(after1 =~= after0);
                    }
                },
            }
        } else {
            proof {
                assert(!tags@.contains(t));
                assert(!tags@.to_set().contains(t));
                assert(!kept.contains(t));
                assert(!after0.contains_key(t));
            }
            let support = support_vec(occ, t);
            proof {
                lemma_own_map_push(owned@, (t, support));
            }
            owned.push((t, support));
            proof {
                assert(own_map(owned@) =~= after1);
            }
            let ghost before_tags = tags@;
            tags.push(t);
            proof {
                before_tags.lemma_push_to_set_commute(t);
                assert(tags@.to_set() =~= kept.union(targets(next)));
                assert forall|a: int, b: int| 0 <= a < tags@.len() && 0 <= b < tags@.len() && a != b implies tags@[a] != tags@[b] by {
                    if a == before_tags.len() {
                        assert(before_tags.contains(tags@[b]));
                    }
                    if b == before_tags.len() {
                        assert(before_tags.contains(tags@[a]));
                    }
                }
            }
            let ghost before = changes@;
            changes.push(Change::AddTag(t));
            proof {
                lemma_changes_push(before, Change::AddTag(t));
            }
        }
        proof {
            assert(additions(next, kept) == if targeted(seen, t) || kept.contains(t) {
                additions(seen, kept)
            } else {
                additions(seen, kept).push(t)
            });
            assert(add_changes(additions(seen, kept).push(t)) =~= add_changes(additions(seen, kept)).push(
                ChangeView::AddTag(t),
            ));
            assert(changes_view(changes@) =~= ch0 + add_changes(additions(next, kept)));
        }
        n = n + 1;
    }
    assert(occ@.take(occ@.len() as int) =~= occ@);
}

/// Copies a vector of ids.
fn copy_ids(v: &Vec<u128>) -> (copy: Vec<u128>)
    ensures
        copy@ == v@,
{
    let mut copy: Vec<u128> = Vec::new();
    let mut i: usize = 0;
    while i < v.len()
        invariant
            i <= v@.len(),
            copy@ == v@.take(i as int),
        decreases v.len() - i,
    {
        copy.push(v[i]);
        i = i + 1;
        assert(copy@ =~= v@.take(i as int));
    }
    assert(copy@ =~= v@);
    copy
}

proof fn lemma_insert_at(r: Seq<u128>, x: u128, j: int)
    requires
        0 <= j <= r.len(),
        forall|k: int| 0 <= k < j ==> !(x < #[trigger] r[k]),
        j == r.len() || x < r[j],
    ensures
        insert_ascending(r, x) == r.take(j).push(x) + r.skip(j),
    decreases j,
{
    if j == 0 {
        if r.len() == 0 {
            assert(r.take(0).push(x) + r.skip(0) =~= seq![x]);
        } else {
            assert(r.take(0).push(x) + r.skip(0) =~= seq![x] + r);
        }
    } else {
        let t = r.drop_first();
        assert forall|k: int| 0 <= k < j - 1 implies !(x < #[trigger] t[k]) by {
            assert(t[k] == r[k + 1]);
        }
        if j < r.len() {
            assert(t[j - 1] == r[j]);
        }
        assert(!(x < r[0]));
        lemma_insert_at(t, x, j - 1);
        assert(seq![r[0]] + (t.take(j - 1).push(x) + t.skip(j - 1)) =~= r.take(j).push(x) + r.skip(j));
    }
}

proof fn lemma_insert_members(r: Seq<u128>, x: u128)
    ensures
        insert_ascending(r, x).len() == r.len() + 1,
        forall|y: u128| #[trigger] insert_ascending(r, x).contains(y) <==> (r.contains(y) || y == x),
    decreases r.len(),
{
    if r.len() > 0 && !(x < r[0]) {
        let t = r.drop_first();
        lemma_insert_members(t, x);
        let i = insert_ascending(t, x);
        assert(i.contains(x));
        assert(insert_ascending(r, x) == seq![r[0]] + i);
        assert forall|y: u128| insert_ascending(r, x).contains(y) <==> (r.contains(y) || y == x) by {
            let whole = seq![r[0]] + i;
            if whole.contains(y) {
                let k = choose|k: int| 0 <= k < whole.len() && whole[k] == y;
                if k > 0 {
                    assert(i[k - 1] == y);
                    assert(i.contains(y));
                    if t.contains(y) {
                        let m = choose|m: int| 0 <= m < t.len() && t[m] == y;
                        assert(r[m + 1] == y);
                    }
                } else {
                    assert(r[0] == y);
                }
            }
            if r.contains(y) {
                let m = choose|m: int| 0 <= m < r.len() && r[m] == y;
                if m > 0 {
                    assert(t[m - 1] == y);
                    assert(t.contains(y));
                    assert(i.contains(y));
                    let k = choose|k: int| 0 <= k < i.len() && i[k] == y;
                    assert(whole[k + 1] == y);
                } else {
                    assert(whole[0] == y);
                }
            }
            if y == x {
                assert(i.contains(x));
                let k = choose|k: int| 0 <= k < i.len() && i[k] == x;
                assert(whole[k + 1] == x);
            }
        }
    } else if r.len() > 0 {
        assert forall|y: u128| insert_ascending(r, x).contains(y) <==> (r.contains(y) || y == x) by {
            let whole = seq![x] + r;
            if whole.contains(y) {
                let k = choose|k: int| 0 <= k < whole.len() && whole[k] == y;
                if k > 0 {
                    assert(r[k - 1] == y);
                }
            }
            if r.contains(y) {
                let m = choose|m: int| 0 <= m < r.len() && r[m] == y;
                assert(whole[m + 1] == y);
            }
            if y == x {
                assert(whole[0] == x);
            }
        }
    } else {
        assert forall|y: u128| insert_ascending(r, x).contains(y) <==> (r.contains(y) || y == x) by {
            if y == x {
                assert(seq![x][0] == x);
            }
        }
    }
}

pub open spec fn sorted_ids(s: Seq<u128>) -> bool {
    forall|i: int, j: int| 0 <= i < j < s.len() ==> s[i] <= s[j]
}

proof fn lemma_insert_sorted(r: Seq<u128>, x: u128)
    requires
        sorted_ids(r),
    ensures
        sorted_ids(insert_ascending(r, x)),
    decreases r.len(),
{
    lemma_insert_members(r, x);
    if r.len() > 0 {
        let t = r.drop_first();
        if x < r[0] {
            let w = seq![x] + r;
            assert forall|i: int, j: int| 0 <= i < j < w.len() implies w[i] <= w[j] by {
                if i > 0 {
                    assert(w[i] == r[i - 1] && w[j] == r[j - 1]);
                } else {
                    assert(w[j] == r[j - 1]);
                    assert(r[0] <= r[j - 1]);
                }
            }
        } else {
            assert(sorted_ids(t)) by {
                assert forall|i: int, j: int| 0 <= i < j < t.len() implies t[i] <= t[j] by {
                    assert(t[i] == r[i + 1] && t[j] == r[j + 1]);
                }
            }
            lemma_insert_sorted(t, x);
            lemma_insert_members(t, x);
            let i2 = insert_ascending(t, x);
            let w = seq![r[0]] + i2;
            assert forall|i: int, j: int| 0 <= i < j < w.len() implies w[i] <= w[j] by {
                if i > 0 {
                    assert(w[i] == i2[i - 1] && w[j] == i2[j - 1]);
                } else {
                    assert(w[j] == i2[j - 1]);
                    assert(i2.contains(i2[j - 1]));
                    let y = i2[j - 1];
                    if y != x {
                        assert(t.contains(y));
                        let m = choose|m: int| 0 <= m < t.len() && t[m] == y;
                        assert(r[m + 1] == y);
                    }
                }
            }
            assert(insert_ascending(r, x) == w);
        }
    }
}

/// Link changes are listed by id: sorting keeps exactly the ids it was
/// given, as many of them, in ascending order.
pub proof fn law_link_changes_are_listed_by_id(s: Seq<u128>)
    ensures
        sorted_ids(ascending(s)),
        ascending(s).len() == s.len(),
        forall|y: u128| #[trigger] ascending(s).contains(y) <==> s.contains(y),
    decreases s.len(),
{
    lemma_ascending_members(s);
    if s.len() > 0 {
        law_link_changes_are_listed_by_id(s.drop_last());
        lemma_insert_sorted(ascending(s.drop_last()), s.last());
    }
}

/// Sorting keeps exactly the ids it was given.
proof fn lemma_ascending_members(s: Seq<u128>)
    ensures
        ascending(s).len() == s.len(),
        forall|y: u128| #[trigger] ascending(s).contains(y) <==> s.contains(y),
    decreases s.len(),
{
    if s.len() > 0 {
        let p = s.drop_last();
        lemma_ascending_members(p);
        lemma_insert_members(ascending(p), s.last());
        assert forall|y: u128| ascending(s).contains(y) <==> s.contains(y) by {
            if p.contains(y) {
                let m = choose|m: int| 0 <= m < p.len() && p[m] == y;
                assert(s[m] == y);
            }
            if s.contains(y) {
                let m = choose|m: int| 0 <= m < s.len() && s[m] == y;
                if m < p.len() {
                    assert(p[m] == y);
                } else {
                    assert(s.last() == y);
                }
            }
            if y == s.last() {
                assert(s[s.len() - 1] == y);
            }
        }
    }
}

fn insert_sorted(out: &mut Vec<u128>, x: u128)
    ensures
        final(out)@ == insert_ascending(old(out)@, x),
{
    let mut j: usize = 0;
    while j < out.len() && !(x < out[j])
        invariant
            j <= out@.len(),
            out@ == old(out)@,
            forall|k: int| 0 <= k < j ==> !(x < #[trigger] out@[k]),
        decreases out.len() - j,
    {
        j = j + 1;
    }
    proof {
        lemma_insert_at(out@, x, j as int);
    }
    let ghost before = out@;
    out.insert(j, x);
    assert(out@ =~= before.take(j as int).push(x) + before.skip(j as int));
}

/// The ids in ascending order.
pub(crate) fn sort_ids(v: &Vec<u128>) -> (sorted: Vec<u128>)
    ensures
        sorted@ == ascending(v@),
{
    let mut out: Vec<u128> = Vec::new();
    let mut i: usize = 0;
    assert(v@.take(0) =~= Seq::<u128>::empty());
    while i < v.len()
        invariant
            i <= v@.len(),
            out@ == ascending(v@.take(i as int)),
        decreases v.len() - i,
    {
        assert(v@.take(i as int + 1).drop_last() =~= v@.take(i as int));
        assert(v@.take(i as int + 1).last() == v@[i as int]);
        insert_sorted(&mut out, v[i]);
        i = i + 1;
    }
    assert(v@.take(i as int) =~= v@);
    out
}

/// The tag ids of the additions that follow `from` removals in `changes`.
fn added_ids(changes: &Vec<Change>, from: usize, Ghost(removed): Ghost<Seq<u128>>, Ghost(added): Ghost<Seq<u128>>) -> (ids: Vec<u128>)
    requires
        removed.len() == from,
        changes_view(changes@) == remove_changes(removed) + add_changes(added),
    ensures
        ids@ == added,
{
    let mut ids: Vec<u128> = Vec::new();
    let mut k: usize = from;
    assert(changes_view(changes@).len() == changes@.len());
    while k < changes.len()
        invariant
            from <= k <= changes@.len(),
            changes@.len() == from + added.len(),
            removed.len() == from,
            changes_view(changes@) == remove_changes(removed) + add_changes(added),
            ids@ == added.take(k - from),
        decreases changes.len() - k,
    {
        assert(changes_view(changes@)[k as int] == changes@[k as int]@);
        assert(changes_view(changes@)[k as int] == ChangeView::AddTag(added[k - from]));
        match &changes[k] {
            Change::AddTag(t) => {
                ids.push(*t);
            },
            _ => {
                assert(false);
            },
        }
        k = k + 1;
        assert(ids@ =~= added.take(k - from));
    }
    assert(added.take(added.len() as int) =~= added);
    ids
}

/// The link changes in order: removals, then additions, each by ascending id.
fn link_changes(removed: &Vec<u128>, added: &Vec<u128>) -> (changes: Vec<Change>)
    ensures
        changes_view(changes@) == remove_changes(ascending(removed@)) + add_changes(ascending(added@)),
{
    let r = sort_ids(removed);
    let a = sort_ids(added);
    let mut changes: Vec<Change> = Vec::new();
    let mut i: usize = 0;
    assert(changes_view(changes@) =~= remove_changes(r@.take(0)));
    while i < r.len()
        invariant
            i <= r@.len(),
            changes_view(changes@) == remove_changes(r@.take(i as int)),
        decreases r.len() - i,
    {
        let ghost before = changes@;
        changes.push(Change::RemoveTag(r[i]));
        proof {
            lemma_changes_push(before, Change::RemoveTag(r@[i as int]));
        }
        i = i + 1;
        assert(remove_changes(r@.take(i as int)) =~= remove_changes(r@.take(i as int - 1)).push(
            ChangeView::RemoveTag(r@[i as int - 1]),
        ));
    }
    assert(r@.take(i as int) =~= r@);
    let ghost head = changes_view(changes@);
    let mut j: usize = 0;
    assert(head + add_changes(a@.take(0)) =~= head);
    while j < a.len()
        invariant
            j <= a@.len(),
            changes_view(changes@) == head + add_changes(a@.take(j as int)),
        decreases a.len() - j,
    {
        let ghost before = changes@;
        changes.push(Change::AddTag(a[j]));
        proof {
            lemma_changes_push(before, Change::AddTag(a@[j as int]));
        }
        j = j + 1;
        assert(head + add_changes(a@.take(j as int)) =~= (head + add_changes(a@.take(j as int - 1))).push(
            ChangeView::AddTag(a@[j as int - 1]),
        ));
    }
    assert(a@.take(j as int) =~= a@);
    changes
}

/// The outcome of the tag stage, as built.
struct TagPart {
    tags: Vec<u128>,
    owned: Vec<(u128, Vec<Alias>)>,
    changes: Vec<Change>,
    removals: u64,
    gaps: Vec<Gap>,
    observed: bool,
}

spec fn tag_part_view(p: TagPart) -> TagOutcome {
    TagOutcome {
        after: p.tags@.to_set(),
        owned: own_map(p.owned@),
        changes: changes_view(p.changes@),
        removals: p.removals as nat,
        gaps: p.gaps@,
        observed: p.observed,
    }
}

fn tag_part(current: &State, o: &Ownership, tags: &Tags, catalog: &Catalog) -> (r: Result<TagPart, Hold>)
    requires
        current.wf(),
        o.wf(),
        forall|k: u128| o.tag_support().contains_key(k) ==> current.tag_set().contains(k),
    ensures
        match r {
            Ok(p) => tag_stage(*current, *o, *tags, *catalog) == Ok::<TagOutcome, Hold>(tag_part_view(p))
                && p.tags@.no_duplicates() && unique_keys(p.owned@),
            Err(h) => tag_stage(*current, *o, *tags, *catalog) == Err::<TagOutcome, Hold>(h),
        },
{
    match tags {
        Tags::Held(h) => Err(*h),
        Tags::Missing => {
            let p = TagPart {
                tags: copy_ids(&current.tags),
                owned: copy_owned(&o.tags),
                changes: Vec::new(),
                removals: 0,
                gaps: vec![Gap::MissingTags],
                observed: false,
            };
            assert(changes_view(p.changes@) =~= Seq::<ChangeView>::empty());
            assert(p.gaps@ =~= seq![Gap::MissingTags]);
            Ok(p)
        },
        Tags::Null => {
            let p = TagPart {
                tags: copy_ids(&current.tags),
                owned: copy_owned(&o.tags),
                changes: Vec::new(),
                removals: 0,
                gaps: vec![Gap::NullTags],
                observed: false,
            };
            assert(changes_view(p.changes@) =~= Seq::<ChangeView>::empty());
            assert(p.gaps@ =~= seq![Gap::NullTags]);
            Ok(p)
        },
        Tags::Complete(occ) => {
            if has_source_conflict(occ) {
                return Err(Hold::SourceConflict);
            }
            if has_dead_target(occ, &catalog.live_tags) {
                return Err(Hold::TargetUnavailable);
            }
            let order = key_order(&o.tags);
            let r = match removal_list(&o.tags, &order, occ, &catalog.live_tags) {
                Err(h) => {
                    return Err(h);
                },
                Ok(r) => r,
            };
            let mut after = copy_ids(&current.tags);
            let mut owned = copy_owned(&o.tags);
            let mut changes: Vec<Change> = Vec::new();
            assert(changes_view(changes@) =~= Seq::<ChangeView>::empty());
            apply_removals(&mut after, &mut owned, &mut changes, &r);
            let ghost kept = current.tag_set().difference(r@.to_set());
            assert(changes_view(changes@) =~= remove_changes(r@));
            apply_additions(
                occ,
                &mut after,
                &mut owned,
                &mut changes,
                Ghost(kept),
                Ghost(o.tag_support()),
                Ghost(r@.to_set()),
            );
            let ghost added = additions(occ@, kept);
            let removed_count = r.len();
            proof {
                after@.unique_seq_to_set();
                assert(changes_view(changes@).len() == changes@.len());
                assert(changes@.len() == r@.len() + added.len());
            }
            if changes.len() > removed_count && after.len() > catalog.tag_limit {
                return Err(Hold::UnitTooLarge);
            }
            let new_links = added_ids(&changes, removed_count, Ghost(r@), Ghost(added));
            let changes = link_changes(&r, &new_links);
            let p = TagPart {
                tags: after,
                owned,
                changes,
                removals: removed_count as u64,
                gaps: Vec::new(),
                observed: true,
            };
            assert(p.gaps@ =~= Seq::<Gap>::empty());
            Ok(p)
        },
    }
}

// ---------------------------------------------------------------------------
// Field stage.

/// The running outcome of the field stage, as built.
struct FieldPart {
    after: Vec<(u128, CustomFieldValue)>,
    owned: Vec<u128>,
    changes: Vec<Change>,
    clears: u64,
    gaps: Vec<Gap>,
    observed: bool,
}

spec fn field_part_view(p: FieldPart) -> FieldOutcome {
    FieldOutcome {
        after: field_map(p.after@),
        owned: p.owned@.to_set(),
        changes: changes_view(p.changes@),
        clears: p.clears as nat,
        gaps: p.gaps@,
        observed: p.observed,
    }
}

spec fn field_part_wf(p: FieldPart) -> bool {
    unique_keys(p.after@) && p.owned@.no_duplicates()
}

/// Whether a field id was already claimed by one of the first `end` intents.
fn key_before(fields: &Vec<(u128, FieldIntent)>, end: usize, id: u128) -> (found: bool)
    requires
        end <= fields@.len(),
    ensures
        found == has_key(fields@.take(end as int), id),
{
    let mut i: usize = 0;
    while i < end
        invariant
            end <= fields@.len(),
            i <= end,
            forall|j: int| 0 <= j < i ==> fields@[j].0 != id,
        decreases end - i,
    {
        if fields[i].0 == id {
            assert(fields@.take(end as int)[i as int].0 == id);
            return true;
        }
        i = i + 1;
    }
    proof {
        if has_key(fields@.take(end as int), id) {
            let j = choose|j: int| 0 <= j < end && fields@.take(end as int)[j].0 == id;
            assert(fields@[j].0 == id);
        }
    }
    false
}

/// Applies the intent at position `n` of the source fields.
fn apply_field(
    fields: &Vec<(u128, FieldIntent)>,
    n: usize,
    current: &State,
    o: &Ownership,
    catalog: &Catalog,
    acc: &mut FieldPart,
) -> (r: Result<(), Hold>)
    requires
        n < fields@.len(),
        current.wf(),
        o.wf(),
        catalog.wf(),
        field_part_wf(*old(acc)),
        old(acc).clears <= n,
    ensures
        match r {
            Ok(()) => field_step(
                fields@.take(n as int),
                fields@[n as int].0,
                fields@[n as int].1,
                current.field_values(),
                o.field_set(),
                *catalog,
                field_part_view(*old(acc)),
            ) == Ok::<FieldOutcome, Hold>(field_part_view(*final(acc))) && field_part_wf(*final(acc))
                && final(acc).clears <= n + 1,
            Err(h) => field_step(
                fields@.take(n as int),
                fields@[n as int].0,
                fields@[n as int].1,
                current.field_values(),
                o.field_set(),
                *catalog,
                field_part_view(*old(acc)),
            ) == Err::<FieldOutcome, Hold>(h),
        },
{
    let total = fields.len();
    let id = fields[n].0;
    if key_before(fields, n, id) {
        return Err(Hold::SourceConflict);
    }
    let ghost view0 = field_part_view(*acc);
    match &fields[n].1 {
        FieldIntent::Held(h) => Err(*h),
        FieldIntent::Missing => {
            acc.gaps.push(Gap::MissingField(id));
            Ok(())
        },
        FieldIntent::UnknownNull => {
            acc.gaps.push(Gap::UnqualifiedNull(id));
            Ok(())
        },
        FieldIntent::QualifiedClear => {
            if find_key(&catalog.live_fields, id).is_none() {
                return Err(Hold::TargetUnavailable);
            }
            if find_key(&current.fields, id).is_some() {
                if !contains_id(&o.fields, id) {
                    return Err(Hold::BaselineUnproven);
                }
                match find_key(&acc.after, id) {
                    Some(k) => {
                        proof {
                            lemma_field_map_remove(acc.after@, k as int);
                        }
                        acc.after.remove(k);
                    },
                    None => {
                        assert(field_map(acc.after@).remove(id) =~= field_map(acc.after@));
                    },
                }
                remove_id(&mut acc.owned, id);
                let ghost before = acc.changes@;
                acc.changes.push(Change::ClearField(id));
                proof {
                    lemma_changes_push(before, Change::ClearField(id));
                }
                assert(acc.clears <= n && n < total);
                acc.clears = acc.clears + 1;
            }
            acc.observed = true;
            Ok(())
        },
        FieldIntent::SetValue(candidate) => {
            let li = match find_key(&catalog.live_fields, id) {
                None => {
                    return Err(Hold::TargetUnavailable);
                },
                Some(li) => li,
            };
            let field = &catalog.live_fields[li].1;
            if candidate.value.field_type() != field.kind {
                return Err(Hold::MappingRequired);
            }
            let valid = match &candidate.value {
                CustomFieldValue::Choice(option) => contains_id(&field.live_options, *option),
                _ => candidate.native_valid,
            };
            if !valid {
                return Err(Hold::UnsupportedSource);
            }
            match find_key(&current.fields, id) {
                Some(ci) => {
                    if equal(&current.fields[ci].1, &candidate.value) {
                        acc.observed = true;
                        return Ok(());
                    }
                    if !contains_id(&o.fields, id) {
                        return Err(Hold::BaselineUnproven);
                    }
                },
                None => {},
            }
            let stored = candidate.value.duplicate();
            match find_key(&acc.after, id) {
                Some(k) => {
                    proof {
                        lemma_field_map_update(acc.after@, k as int, stored);
                    }
                    acc.after.set(k, (id, stored));
                },
                None => {
                    proof {
                        lemma_field_map_push(acc.after@, (id, stored));
                    }
                    acc.after.push((id, stored));
                },
            }
            insert_id(&mut acc.owned, id);
            let ghost before = acc.changes@;
            let recorded = candidate.value.duplicate();
            acc.changes.push(Change::SetField(id, recorded));
            proof {
                lemma_changes_push(before, Change::SetField(id, recorded));
            }
            acc.observed = true;
            Ok(())
        },
    }
}

/// Once a prefix of the intents holds, the whole does.
proof fn lemma_field_error_sticks(
    intents: Seq<(u128, FieldIntent)>,
    current: Map<u128, ValueView>,
    owned: Set<u128>,
    catalog: Catalog,
    start: FieldOutcome,
    n: int,
    h: Hold,
)
    requires
        0 <= n <= intents.len(),
        field_stage(intents.take(n), current, owned, catalog, start) == Err::<FieldOutcome, Hold>(h),
    ensures
        field_stage(intents, current, owned, catalog, start) == Err::<FieldOutcome, Hold>(h),
    decreases intents.len() - n,
{
    if n < intents.len() {
        assert(intents.take(n + 1).drop_last() =~= intents.take(n));
        lemma_field_error_sticks(intents, current, owned, catalog, start, n + 1, h);
    } else {
        assert(intents.take(n) =~= intents);
    }
}

fn field_part(
    fields: &Vec<(u128, FieldIntent)>,
    current: &State,
    o: &Ownership,
    catalog: &Catalog,
    start: FieldPart,
) -> (r: Result<FieldPart, Hold>)
    requires
        current.wf(),
        o.wf(),
        catalog.wf(),
        field_part_wf(start),
        start.clears == 0,
    ensures
        match r {
            Ok(p) => field_stage(
                fields@,
                current.field_values(),
                o.field_set(),
                *catalog,
                field_part_view(start),
            ) == Ok::<FieldOutcome, Hold>(field_part_view(p)) && field_part_wf(p),
            Err(h) => field_stage(
                fields@,
                current.field_values(),
                o.field_set(),
                *catalog,
                field_part_view(start),
            ) == Err::<FieldOutcome, Hold>(h),
        },
{
    let ghost start_view = field_part_view(start);
    let mut acc = start;
    let mut n: usize = 0;
    assert(fields@.take(0) =~= Seq::<(u128, FieldIntent)>::empty());
    while n < fields.len()
        invariant
            n <= fields@.len(),
            current.wf(),
            o.wf(),
            catalog.wf(),
            field_part_wf(acc),
            acc.clears <= n,
            start_view == field_part_view(start),
            field_stage(fields@.take(n as int), current.field_values(), o.field_set(), *catalog, start_view)
                == Ok::<FieldOutcome, Hold>(field_part_view(acc)),
        decreases fields.len() - n,
    {
        proof {
            assert(fields@.take(n as int + 1).drop_last() =~= fields@.take(n as int));
            assert(fields@.take(n as int + 1).last() == fields@[n as int]);
        }
        match apply_field(fields, n, current, o, catalog, &mut acc) {
            Err(h) => {
                proof {
                    assert(field_stage(fields@.take(n as int + 1), current.field_values(), o.field_set(), *catalog, start_view)
                        == Err::<FieldOutcome, Hold>(h));
                    lemma_field_error_sticks(
                        fields@,
                        current.field_values(),
                        o.field_set(),
                        *catalog,
                        start_view,
                        n as int + 1,
                        h,
                    );
                }
                return Err(h);
            },
            Ok(()) => {},
        }
        n = n + 1;
    }
    assert(fields@.take(fields@.len() as int) =~= fields@);
    Ok(acc)
}

// ---------------------------------------------------------------------------
// The proposal.

fn same_head(a: Option<u128>, b: Option<u128>) -> (same: bool)
    ensures
        same == (a == b),
{
    match (a, b) {
        (Some(x), Some(y)) => x == y,
        (None, None) => true,
        _ => false,
    }
}

fn precheck_exec(
    baseline: Option<&Snapshot>,
    current: Option<&Snapshot>,
    o: &Ownership,
    first_coverage: bool,
) -> (h: Option<Hold>)
    requires
        baseline matches Some(b) ==> b.state.wf(),
        current matches Some(c) ==> c.state.wf(),
    ensures
        h == precheck(opt_snapshot(baseline), opt_snapshot(current), *o, first_coverage),
{
    if !first_coverage {
        return Some(Hold::FirstCoverageRequired);
    }
    let b = match baseline {
        None => {
            return Some(Hold::BaselineUnproven);
        },
        Some(b) => b,
    };
    let c = match current {
        None => {
            return Some(Hold::TargetErased);
        },
        Some(c) => c,
    };
    if b.person != c.person {
        return Some(Hold::IdentityMismatch);
    }
    if !same_head(b.head, c.head) {
        return Some(Hold::StaleHead);
    }
    if b.revision <= 0 || c.revision <= 0 {
        return Some(Hold::BaselineUnproven);
    }
    if b.revision != c.revision || !b.state.matches(&c.state) {
        return Some(Hold::LocalChange);
    }
    if !within(&b.state, o) || shares(o) {
        return Some(Hold::BaselineUnproven);
    }
    None
}

/// Missing/erased baselines, any local edit (including edit-and-revert), or an
/// invalid sub-operation holds the entire Person. The caller publishes a hold
/// with zero destructive-action counts, never the partially built local result.
pub fn propose(
    baseline: Option<&Snapshot>,
    current: Option<&Snapshot>,
    ownership: &Ownership,
    source: &Source,
    catalog: &Catalog,
    first_coverage: bool,
) -> (r: Result<Proposal, Hold>)
    requires
        baseline matches Some(b) ==> b.state.wf(),
        current matches Some(c) ==> c.state.wf(),
        ownership.wf(),
        catalog.wf(),
    ensures
        result_view(r) == spec_propose(
            opt_snapshot(baseline),
            opt_snapshot(current),
            *ownership,
            *source,
            *catalog,
            first_coverage,
        ),
        r matches Ok(p) ==> p.after.wf() && p.ownership.wf(),
{
    match precheck_exec(baseline, current, ownership, first_coverage) {
        Some(h) => {
            return Err(h);
        },
        None => {},
    }
    let b = baseline.unwrap();
    let c = current.unwrap();
    proof {
        assert forall|k: u128| ownership.tag_support().contains_key(k) implies c.state.tag_set().contains(k) by {
            let i = choose|i: int| 0 <= i < ownership.tags@.len() && ownership.tags@[i].0 == k;
            assert(b.state.tags@.contains(ownership.tags@[i].0));
            assert(b.state.tag_set().contains(k));
        }
    }
    let tp = match tag_part(&c.state, ownership, &source.tags, catalog) {
        Err(h) => {
            return Err(h);
        },
        Ok(tp) => tp,
    };
    let ghost t = tag_part_view(tp);
    let copied = c.state.copy();
    let start = FieldPart {
        after: copied.fields,
        owned: copy_ids(&ownership.fields),
        changes: tp.changes,
        clears: 0,
        gaps: tp.gaps,
        observed: tp.observed,
    };
    let fp = match field_part(&source.fields, &c.state, ownership, catalog, start) {
        Err(h) => {
            return Err(h);
        },
        Ok(fp) => fp,
    };
    if !fp.observed {
        return Err(Hold::SourceNotObserved);
    }
    let changed = fp.changes.len() > 0;
    let counts = Counts {
        units: 1,
        inserts: 0,
        updates: if changed {
            1
        } else {
            0
        },
        already_current: if changed {
            0
        } else {
            1
        },
        held: 0,
        excluded: 0,
        tag_removals: tp.removals,
        field_clears: fp.clears,
        task_completions: 0,
        task_reopens: 0,
        history_corrections: 0,
        source_only: 0,
    };
    let p = Proposal {
        person: c.person,
        expected_revision: c.revision,
        expected_head: c.head,
        changes: fp.changes,
        after: State { tags: tp.tags, fields: fp.after },
        ownership: Ownership { tags: tp.owned, fields: fp.owned },
        counts,
        gaps: fp.gaps,
    };
    Ok(p)
}

// ---------------------------------------------------------------------------
// Laws.

/// Every link the removal pass takes out was owned and is no longer mapped to
/// by any source alias.
proof fn lemma_removals_owned_and_unmapped(
    owned: Seq<(u128, Vec<Alias>)>,
    occ: Seq<(Alias, u128)>,
    live: Seq<u128>,
)
    ensures
        removals(owned, occ, live) matches Ok(r) ==> forall|j: int|
            0 <= j < r.len() ==> has_key(owned, #[trigger] r[j]) && !targeted(occ, r[j]),
    decreases owned.len(),
{
    if owned.len() > 0 {
        let prev = owned.drop_last();
        lemma_removals_owned_and_unmapped(prev, occ, live);
        if let Ok(r) = removals(owned, occ, live) {
            let pr = removals(prev, occ, live)->Ok_0;
            assert forall|j: int| 0 <= j < r.len() implies has_key(owned, #[trigger] r[j]) && !targeted(
                occ,
                r[j],
            ) by {
                if j < pr.len() {
                    assert(r[j] == pr[j]);
                    let a = choose|a: int| 0 <= a < prev.len() && prev[a].0 == pr[j];
                    assert(owned[a].0 == r[j]);
                } else {
                    assert(owned[owned.len() - 1].0 == r[j]);
                }
            }
        }
    }
}

/// The links the ordered removal pass takes out are owned links that no
/// source alias maps to any more, at most one per owned link.
proof fn lemma_ordered_removals(s: Seq<(u128, Vec<Alias>)>, occ: Seq<(Alias, u128)>, live: Seq<u128>)
    ensures
        removals(by_key(s), occ, live) matches Ok(r) ==> r.len() <= s.len() && forall|j: int|
            0 <= j < r.len() ==> has_key(s, #[trigger] r[j]) && !targeted(occ, r[j]),
{
    lemma_by_key(s);
    lemma_removals_owned_and_unmapped(by_key(s), occ, live);
    lemma_removals_len(by_key(s), occ, live);
    if let Ok(r) = removals(by_key(s), occ, live) {
        assert forall|j: int| 0 <= j < r.len() implies has_key(s, #[trigger] r[j]) && !targeted(occ, r[j]) by {
            let m = choose|m: int| 0 <= m < by_key(s).len() && by_key(s)[m].0 == r[j];
            assert(has_key(s, by_key(s)[m].0));
        }
    }
}

/// Every tag the source maps to that is not kept is added.
proof fn lemma_additions_cover(occ: Seq<(Alias, u128)>, kept: Set<u128>)
    ensures
        forall|t: u128| targeted(occ, t) && !kept.contains(t) ==> additions(occ, kept).contains(t),
    decreases occ.len(),
{
    if occ.len() > 0 {
        let prev = occ.drop_last();
        lemma_additions_cover(prev, kept);
        assert forall|t: u128| targeted(occ, t) && !kept.contains(t) implies additions(occ, kept).contains(t) by {
            let a = choose|a: int| 0 <= a < occ.len() && occ[a].1 == t;
            if a < prev.len() {
                assert(prev[a].1 == t);
                let r = additions(prev, kept);
                let k = choose|k: int| 0 <= k < r.len() && r[k] == t;
                if !(targeted(prev, occ.last().1) || kept.contains(occ.last().1)) {
                    assert(r.push(occ.last().1)[k] == t);
                }
            } else if targeted(prev, t) {
                let r = additions(prev, kept);
                let k = choose|k: int| 0 <= k < r.len() && r[k] == t;
                assert(additions(occ, kept) == r);
            } else {
                let r = additions(prev, kept);
                assert(additions(occ, kept)[r.len() as int] == t);
            }
        }
    }
}

/// The field stage only changes values it may change: a native value is
/// cleared or replaced only where it is owned, and ownership is only gained
/// where the native value was absent or differs.
spec fn fields_guarded(current: Map<u128, ValueView>, owned: Set<u128>, acc: FieldOutcome) -> bool {
    &&& forall|f: u128|
        #![trigger acc.after.contains_key(f)]
        current.contains_key(f) && (!acc.after.contains_key(f) || acc.after[f] != current[f])
            ==> owned.contains(f)
    &&& forall|f: u128|
        #![trigger acc.owned.contains(f)]
        acc.owned.contains(f) ==> owned.contains(f) || !current.contains_key(f) || (
        acc.after.contains_key(f) && acc.after[f] != current[f])
}

#[verifier::spinoff_prover]
#[verifier::rlimit(40)]
proof fn lemma_field_stage_guarded(
    intents: Seq<(u128, FieldIntent)>,
    current: Map<u128, ValueView>,
    owned: Set<u128>,
    catalog: Catalog,
    start: FieldOutcome,
)
    requires
        fields_guarded(current, owned, start),
    ensures
        field_stage(intents, current, owned, catalog, start) matches Ok(f) ==> fields_guarded(
            current,
            owned,
            f,
        ),
    decreases intents.len(),
{
    if intents.len() > 0 {
        let prev = intents.drop_last();
        lemma_field_stage_guarded(prev, current, owned, catalog, start);
        if let Ok(acc) = field_stage(prev, current, owned, catalog, start) {
            let id = intents.last().0;
            if let Ok(f) = field_step(prev, id, intents.last().1, current, owned, catalog, acc) {
                assert forall|k: u128| #![trigger f.after.contains_key(k)]
                    current.contains_key(k) && (!f.after.contains_key(k) || f.after[k] != current[k])
                    implies owned.contains(k) by {
                    if k != id {
                        assert(f.after.contains_key(k) == acc.after.contains_key(k));
                        if f.after.contains_key(k) {
                            assert(f.after[k] == acc.after[k]);
                        }
                        assert(acc.after.contains_key(k) ==> true);
                    } else {
                        assert(acc.after.contains_key(k) || !acc.after.contains_key(k));
                        assert(acc.owned.contains(k) || !acc.owned.contains(k));
                    }
                }
                assert forall|k: u128| #![trigger f.owned.contains(k)]
                    f.owned.contains(k) implies owned.contains(k) || !current.contains_key(k) || (
                    f.after.contains_key(k) && f.after[k] != current[k]) by {
                    if k != id {
                        assert(acc.owned.contains(k));
                        assert(f.after.contains_key(k) == acc.after.contains_key(k));
                        if f.after.contains_key(k) {
                            assert(f.after[k] == acc.after[k]);
                        }
                    }
                }
            }
        }
    }
}

/// A Person whose native metadata or revision changed since the proven
/// baseline is held as a whole, whatever the source says.
pub proof fn law_local_edit_holds_whole_person(
    baseline: Snapshot,
    current: Snapshot,
    o: Ownership,
    source: Source,
    catalog: Catalog,
)
    requires
        baseline.person == current.person,
        baseline.head == current.head,
        baseline.revision > 0,
        current.revision > 0,
        baseline.revision != current.revision || !baseline.state.same_as(&current.state),
    ensures
        spec_propose(Some(baseline), Some(current), o, source, catalog, true) == Err::<
            ProposalView,
            Hold,
        >(Hold::LocalChange),
{
}

/// An accepted proposal touches only what the refresh proved it owns: a tag
/// link leaves only if it was owned and no source alias maps to it any more, a
/// native field value is cleared or replaced only if it was owned, and a link
/// or value that was already present natively never acquires ownership.
pub proof fn law_proposal_touches_only_owned(
    baseline: Option<Snapshot>,
    current: Snapshot,
    o: Ownership,
    source: Source,
    catalog: Catalog,
    first_coverage: bool,
)
    ensures
        spec_propose(baseline, Some(current), o, source, catalog, first_coverage) matches Ok(p) ==> {
            &&& forall|t: u128|
                current.state.tag_set().contains(t) && !p.after_tags.contains(t)
                    ==> o.tag_support().contains_key(t)
            &&& forall|t: u128|
                p.owned_tags.contains_key(t) ==> o.tag_support().contains_key(t)
                    || !current.state.tag_set().contains(t)
            &&& forall|f: u128|
                current.state.field_values().contains_key(f) && (!p.after_fields.contains_key(f)
                    || p.after_fields[f] != current.state.field_values()[f]) ==> o.field_set().contains(f)
            &&& forall|f: u128|
                p.owned_fields.contains(f) ==> o.field_set().contains(f)
                    || !current.state.field_values().contains_key(f) || (p.after_fields.contains_key(f)
                    && p.after_fields[f] != current.state.field_values()[f])
        },
{
    let c = current;
    if let Ok(p) = spec_propose(baseline, Some(current), o, source, catalog, first_coverage) {
        let t = tag_stage(c.state, o, source.tags, catalog)->Ok_0;
        let start = FieldOutcome {
            after: c.state.field_values(),
            owned: o.field_set(),
            changes: t.changes,
            clears: 0,
            gaps: t.gaps,
            observed: t.observed,
        };
        lemma_field_stage_guarded(source.fields@, c.state.field_values(), o.field_set(), catalog, start);
        if let Tags::Complete(v) = source.tags {
            let occ = v@;
            lemma_ordered_removals(o.tags@, occ, catalog.live_tags@);
            let r = removals(by_key(o.tags@), occ, catalog.live_tags@)->Ok_0;
            let kept = c.state.tag_set().difference(r.to_set());
            assert forall|x: u128| c.state.tag_set().contains(x) && !p.after_tags.contains(x) implies o.tag_support().contains_key(
                x,
            ) by {
                assert(!kept.contains(x));
                assert(r.to_set().contains(x));
                let j = choose|j: int| 0 <= j < r.len() && r[j] == x;
                assert(has_key(o.tags@, r[j]));
            }
            assert forall|x: u128| p.owned_tags.contains_key(x) implies o.tag_support().contains_key(x)
                || !c.state.tag_set().contains(x) by {
                if !o.tag_support().contains_key(x) || r.to_set().contains(x) {
                    if r.to_set().contains(x) {
                        let j = choose|j: int| 0 <= j < r.len() && r[j] == x;
                        assert(!targeted(occ, r[j]));
                    }
                    assert(targeted(occ, x) && !kept.contains(x));
                }
            }
        }
    }
}

/// An accepted proposal links the Person only to live tags: every tag it adds
/// is in the live catalog. A complete source tag list that maps an alias to a
/// tag no longer live holds the whole Person as an unavailable target, once
/// the Person's own checks pass and no alias is mapped to two tags.
pub proof fn law_links_only_to_live_tags(
    baseline: Option<Snapshot>,
    current: Snapshot,
    o: Ownership,
    source: Source,
    catalog: Catalog,
    first_coverage: bool,
)
    ensures
        spec_propose(baseline, Some(current), o, source, catalog, first_coverage) matches Ok(p) ==> forall|t: u128|
            #[trigger] p.after_tags.contains(t) && !current.state.tag_set().contains(t)
                ==> catalog.live_tags@.contains(t),
        precheck(baseline, Some(current), o, first_coverage) is None && source.tags is Complete && (forall|
            i: int,
            j: int,
        |
            0 <= i < source.tags->Complete_0@.len() && 0 <= j < source.tags->Complete_0@.len()
                && #[trigger] source.tags->Complete_0@[i].0 == #[trigger] source.tags->Complete_0@[j].0
                ==> source.tags->Complete_0@[i].1 == source.tags->Complete_0@[j].1) && (exists|i: int|
            0 <= i < source.tags->Complete_0@.len() && !catalog.live_tags@.contains(
                #[trigger] source.tags->Complete_0@[i].1,
            )) ==> spec_propose(baseline, Some(current), o, source, catalog, first_coverage) == Err::<
            ProposalView,
            Hold,
        >(Hold::TargetUnavailable),
{
    if let Tags::Complete(v) = source.tags {
        let occ = v@;
        if let Ok(p) = spec_propose(baseline, Some(current), o, source, catalog, first_coverage) {
            let r = removals(by_key(o.tags@), occ, catalog.live_tags@)->Ok_0;
            let kept = current.state.tag_set().difference(r.to_set());
            assert forall|t: u128| #[trigger] p.after_tags.contains(t) && !current.state.tag_set().contains(t)
                implies catalog.live_tags@.contains(t) by {
                assert(!kept.contains(t));
                assert(targets(occ).contains(t));
                let i = choose|i: int| 0 <= i < occ.len() && occ[i].1 == t;
                assert(!dead_target(occ, catalog.live_tags@));
            }
        }
        if (forall|i: int, j: int|
            0 <= i < occ.len() && 0 <= j < occ.len() && #[trigger] occ[i].0 == #[trigger] occ[j].0 ==> occ[i].1
                == occ[j].1) {
            assert(!source_conflict(occ));
        }
    }
}

/// An accepted proposal grows a Person's tags only within the tag limit.
pub proof fn law_added_tags_respect_capacity(
    baseline: Option<Snapshot>,
    current: Snapshot,
    o: Ownership,
    source: Source,
    catalog: Catalog,
    first_coverage: bool,
)
    ensures
        spec_propose(baseline, Some(current), o, source, catalog, first_coverage) matches Ok(p) ==> (
        p.after_tags.subset_of(current.state.tag_set()) || p.after_tags.len() <= catalog.tag_limit),
{
    if let Ok(p) = spec_propose(baseline, Some(current), o, source, catalog, first_coverage) {
        if let Tags::Complete(v) = source.tags {
            let occ = v@;
            lemma_ordered_removals(o.tags@, occ, catalog.live_tags@);
            let r = removals(by_key(o.tags@), occ, catalog.live_tags@)->Ok_0;
            let kept = current.state.tag_set().difference(r.to_set());
            lemma_additions_cover(occ, kept);
            if additions(occ, kept).len() == 0 {
                assert forall|x: u128| p.after_tags.contains(x) implies current.state.tag_set().contains(x) by {
                    if !kept.contains(x) {
                        assert(targeted(occ, x));
                        assert(additions(occ, kept).contains(x));
                    }
                }
            }
        }
    }
}

/// An accepted proposal is one unit, counted either as an update (when it
/// changes anything) or as already current, and its counts reconcile.
pub proof fn law_proposal_is_one_reconciled_unit(
    baseline: Option<Snapshot>,
    current: Option<Snapshot>,
    o: Ownership,
    source: Source,
    catalog: Catalog,
    first_coverage: bool,
)
    ensures
        spec_propose(baseline, current, o, source, catalog, first_coverage) matches Ok(p) ==> {
            &&& p.counts.units == 1
            &&& spec_reconciles(p.counts)
            &&& (p.counts.updates == 1) == (p.changes.len() > 0)
            &&& (p.counts.already_current == 1) == (p.changes.len() == 0)
        },
{
}

/// How many tag removals a change list holds.
pub open spec fn removal_count(c: Seq<ChangeView>) -> nat
    decreases c.len(),
{
    if c.len() == 0 {
        0
    } else {
        removal_count(c.drop_last()) + if c.last() is RemoveTag {
            1nat
        } else {
            0nat
        }
    }
}

/// How many field clears a change list holds.
pub open spec fn clear_count(c: Seq<ChangeView>) -> nat
    decreases c.len(),
{
    if c.len() == 0 {
        0
    } else {
        clear_count(c.drop_last()) + if c.last() is ClearField {
            1nat
        } else {
            0nat
        }
    }
}

/// Two field maps hold the same value, or both none, for field `k`.
pub open spec fn agrees_at(a: Map<u128, ValueView>, b: Map<u128, ValueView>, k: u128) -> bool {
    &&& a.contains_key(k) == b.contains_key(k)
    &&& a.contains_key(k) ==> a[k] == b[k]
}

/// The gap reported for a source field that leaves the native value alone.
pub open spec fn retained_gap(id: u128, intent: FieldIntent) -> Option<Gap> {
    match intent {
        FieldIntent::Missing => Some(Gap::MissingField(id)),
        FieldIntent::UnknownNull => Some(Gap::UnqualifiedNull(id)),
        _ => None,
    }
}

proof fn lemma_counts_concat(a: Seq<ChangeView>, b: Seq<ChangeView>)
    ensures
        removal_count(a + b) == removal_count(a) + removal_count(b),
        clear_count(a + b) == clear_count(a) + clear_count(b),
    decreases b.len(),
{
    if b.len() == 0 {
        assert(a + b =~= a);
    } else {
        lemma_counts_concat(a, b.drop_last());
        assert((a + b).drop_last() =~= a + b.drop_last());
    }
}

proof fn lemma_remove_changes_count(r: Seq<u128>)
    ensures
        removal_count(remove_changes(r)) == r.len(),
        clear_count(remove_changes(r)) == 0,
    decreases r.len(),
{
    if r.len() > 0 {
        lemma_remove_changes_count(r.drop_last());
        assert(remove_changes(r).drop_last() =~= remove_changes(r.drop_last()));
    }
}

proof fn lemma_add_changes_count(a: Seq<u128>)
    ensures
        removal_count(add_changes(a)) == 0,
        clear_count(add_changes(a)) == 0,
    decreases a.len(),
{
    if a.len() > 0 {
        lemma_add_changes_count(a.drop_last());
        assert(add_changes(a).drop_last() =~= add_changes(a.drop_last()));
    }
}

/// The field stage keeps the tag changes as a prefix and appends only field
/// changes, one clear per counted clear, each clear of an owned field.
proof fn lemma_field_stage_appends(
    intents: Seq<(u128, FieldIntent)>,
    current: Map<u128, ValueView>,
    owned: Set<u128>,
    catalog: Catalog,
    start: FieldOutcome,
)
    ensures
        field_stage(intents, current, owned, catalog, start) matches Ok(f) ==> {
            &&& start.changes.len() <= f.changes.len()
            &&& f.changes.subrange(0, start.changes.len() as int) == start.changes
            &&& forall|j: int|
                start.changes.len() <= j < f.changes.len() ==> (#[trigger] f.changes[j] is SetField
                    || f.changes[j] is ClearField)
            &&& forall|j: int|
                start.changes.len() <= j < f.changes.len() && #[trigger] f.changes[j] is ClearField
                    ==> owned.contains(f.changes[j]->ClearField_0)
            &&& removal_count(f.changes) == removal_count(start.changes)
            &&& start.clears <= f.clears <= start.clears + intents.len()
            &&& clear_count(f.changes) + start.clears == clear_count(start.changes) + f.clears
        },
    decreases intents.len(),
{
    if intents.len() > 0 {
        let prev = intents.drop_last();
        lemma_field_stage_appends(prev, current, owned, catalog, start);
        if let Ok(acc) = field_stage(prev, current, owned, catalog, start) {
            let id = intents.last().0;
            if let Ok(f) = field_step(prev, id, intents.last().1, current, owned, catalog, acc) {
                if f.changes.len() > acc.changes.len() {
                    assert(f.changes.drop_last() == acc.changes);
                    assert(f.changes.subrange(0, start.changes.len() as int) =~= acc.changes.subrange(
                        0,
                        start.changes.len() as int,
                    ));
                }
            }
        }
    }
}

/// Every field the field stage owns was owned before or is set by it.
proof fn lemma_field_stage_owns_by_setting(
    intents: Seq<(u128, FieldIntent)>,
    current: Map<u128, ValueView>,
    owned: Set<u128>,
    catalog: Catalog,
    start: FieldOutcome,
)
    ensures
        field_stage(intents, current, owned, catalog, start) matches Ok(f) ==> forall|k: u128|
            #[trigger] f.owned.contains(k) ==> start.owned.contains(k) || exists|v: ValueView|
                f.changes.contains(ChangeView::SetField(k, v)),
    decreases intents.len(),
{
    if intents.len() > 0 {
        let prev = intents.drop_last();
        lemma_field_stage_owns_by_setting(prev, current, owned, catalog, start);
        if let Ok(acc) = field_stage(prev, current, owned, catalog, start) {
            let id = intents.last().0;
            if let Ok(f) = field_step(prev, id, intents.last().1, current, owned, catalog, acc) {
                assert forall|k: u128| #[trigger] f.owned.contains(k) implies start.owned.contains(k)
                    || exists|v: ValueView| f.changes.contains(ChangeView::SetField(k, v)) by {
                    let grew = f.changes.len() > acc.changes.len();
                    if grew && f.changes.last() == ChangeView::SetField(k, f.changes.last()->SetField_1) {
                        let j = f.changes.len() - 1;
                        assert(f.changes[j] == ChangeView::SetField(k, f.changes.last()->SetField_1));
                        assert(f.changes.contains(ChangeView::SetField(k, f.changes.last()->SetField_1)));
                    } else {
                        assert(acc.owned.contains(k));
                        if !start.owned.contains(k) {
                            let v = choose|v: ValueView| acc.changes.contains(ChangeView::SetField(k, v));
                            let j = choose|j: int|
                                0 <= j < acc.changes.len() && acc.changes[j] == ChangeView::SetField(k, v);
                            if grew {
                                assert(f.changes == acc.changes.push(f.changes.last()));
                            }
                            assert(f.changes[j] == ChangeView::SetField(k, v));
                            assert(f.changes.contains(ChangeView::SetField(k, v)));
                        }
                    }
                }
            }
        }
    }
}

/// A source field that is missing or an unqualified null leaves its native
/// value alone and reports its gap; earlier gaps stay; a stage made only of
/// such fields observes nothing new.
proof fn lemma_field_stage_retains(
    intents: Seq<(u128, FieldIntent)>,
    current: Map<u128, ValueView>,
    owned: Set<u128>,
    catalog: Catalog,
    start: FieldOutcome,
)
    ensures
        field_stage(intents, current, owned, catalog, start) matches Ok(f) ==> {
            &&& forall|i: int|
                0 <= i < intents.len() && (#[trigger] retained_gap(intents[i].0, intents[i].1)) is Some
                    ==> agrees_at(f.after, start.after, intents[i].0) && f.gaps.contains(
                    retained_gap(intents[i].0, intents[i].1)->0,
                )
            &&& forall|g: Gap| #[trigger] start.gaps.contains(g) ==> f.gaps.contains(g)
            &&& forall|k: u128| !has_key(intents, k) ==> #[trigger] agrees_at(f.after, start.after, k)
            &&& (forall|i: int|
                0 <= i < intents.len() ==> (#[trigger] retained_gap(intents[i].0, intents[i].1)) is Some)
                ==> f.observed == start.observed
        },
    decreases intents.len(),
{
    if intents.len() > 0 {
        let prev = intents.drop_last();
        lemma_field_stage_retains(prev, current, owned, catalog, start);
        if let Ok(acc) = field_stage(prev, current, owned, catalog, start) {
            let id = intents.last().0;
            let last = intents.len() - 1;
            if let Ok(f) = field_step(prev, id, intents.last().1, current, owned, catalog, acc) {
                assert(!has_key(prev, id));
                assert(agrees_at(acc.after, start.after, id));
                assert forall|k: u128| !has_key(intents, k) implies #[trigger] agrees_at(f.after, start.after, k) by {
                    assert(k != intents[last].0);
                    if has_key(prev, k) {
                        let j = choose|j: int| 0 <= j < prev.len() && prev[j].0 == k;
                        assert(intents[j].0 == k);
                    }
                    assert(agrees_at(acc.after, start.after, k));
                }
                assert forall|g: Gap| #[trigger] acc.gaps.contains(g) implies f.gaps.contains(g) by {
                    let j = choose|j: int| 0 <= j < acc.gaps.len() && acc.gaps[j] == g;
                    assert(f.gaps[j] == g);
                }
                assert forall|i: int|
                    0 <= i < intents.len() && (#[trigger] retained_gap(intents[i].0, intents[i].1)) is Some
                    implies agrees_at(f.after, start.after, intents[i].0) && f.gaps.contains(
                    retained_gap(intents[i].0, intents[i].1)->0,
                ) by {
                    if i < last {
                        assert(prev[i] == intents[i]);
                        assert(retained_gap(prev[i].0, prev[i].1) is Some);
                        assert(prev[i].0 != id);
                        assert(agrees_at(acc.after, start.after, prev[i].0));
                        assert(acc.gaps.contains(retained_gap(prev[i].0, prev[i].1)->0));
                    } else {
                        assert(f.gaps[acc.gaps.len() as int] == retained_gap(id, intents.last().1)->0);
                    }
                }
                if forall|i: int|
                    0 <= i < intents.len() ==> (#[trigger] retained_gap(intents[i].0, intents[i].1)) is Some {
                    assert forall|i: int| 0 <= i < prev.len() implies (#[trigger] retained_gap(
                        prev[i].0,
                        prev[i].1,
                    )) is Some by {
                        assert(prev[i] == intents[i]);
                        assert(retained_gap(intents[i].0, intents[i].1) is Some);
                    }
                    assert(retained_gap(intents[last].0, intents[last].1) is Some);
                }
            }
        }
    }
}

/// Every added tag is mapped to by the source and is not kept.
proof fn lemma_additions_sound(occ: Seq<(Alias, u128)>, kept: Set<u128>)
    ensures
        forall|j: int|
            0 <= j < additions(occ, kept).len() ==> targeted(occ, #[trigger] additions(occ, kept)[j])
                && !kept.contains(additions(occ, kept)[j]),
    decreases occ.len(),
{
    if occ.len() > 0 {
        let prev = occ.drop_last();
        lemma_additions_sound(prev, kept);
        let r = additions(prev, kept);
        assert forall|j: int| 0 <= j < additions(occ, kept).len() implies targeted(
            occ,
            #[trigger] additions(occ, kept)[j],
        ) && !kept.contains(additions(occ, kept)[j]) by {
            let x = additions(occ, kept)[j];
            if j < r.len() {
                assert(x == r[j]);
                let i = choose|i: int| 0 <= i < prev.len() && prev[i].1 == x;
                assert(occ[i].1 == x);
            } else {
                assert(occ[occ.len() - 1].1 == x);
            }
        }
    }
}

/// The removal pass removes at most one link per owned link.
proof fn lemma_removals_len(owned: Seq<(u128, Vec<Alias>)>, occ: Seq<(Alias, u128)>, live: Seq<u128>)
    ensures
        removals(owned, occ, live) matches Ok(r) ==> r.len() <= owned.len(),
    decreases owned.len(),
{
    if owned.len() > 0 {
        lemma_removals_len(owned.drop_last(), occ, live);
    }
}

/// What the tag stage records: only link changes, each removal of an owned
/// link and each addition of a link the Person lacks, counted as removals,
/// and owned links that were owned before or are added by it.
proof fn lemma_tag_stage_record(current: State, o: Ownership, tags: Tags, catalog: Catalog)
    ensures
        tag_stage(current, o, tags, catalog) matches Ok(t) ==> {
            &&& removal_count(t.changes) == t.removals
            &&& clear_count(t.changes) == 0
            &&& t.removals <= o.tags@.len()
            &&& forall|j: int|
                0 <= j < t.changes.len() ==> (#[trigger] t.changes[j] is RemoveTag
                    || t.changes[j] is AddTag)
            &&& forall|j: int|
                0 <= j < t.changes.len() && #[trigger] t.changes[j] is RemoveTag
                    ==> o.tag_support().contains_key(t.changes[j]->RemoveTag_0)
            &&& forall|j: int|
                0 <= j < t.changes.len() && #[trigger] t.changes[j] is AddTag
                    ==> !current.tag_set().contains(t.changes[j]->AddTag_0)
            &&& forall|k: u128|
                #[trigger] t.owned.contains_key(k) ==> o.tag_support().contains_key(k)
                    || t.changes.contains(ChangeView::AddTag(k))
        },
{
    if let Ok(t) = tag_stage(current, o, tags, catalog) {
        if let Tags::Complete(v) = tags {
            let occ = v@;
            let r = removals(by_key(o.tags@), occ, catalog.live_tags@)->Ok_0;
            let kept = current.tag_set().difference(r.to_set());
            let added = additions(occ, kept);
            let ar = ascending(r);
            let aa = ascending(added);
            lemma_ordered_removals(o.tags@, occ, catalog.live_tags@);
            lemma_additions_sound(occ, kept);
            lemma_additions_cover(occ, kept);
            lemma_ascending_members(r);
            lemma_ascending_members(added);
            lemma_remove_changes_count(ar);
            lemma_add_changes_count(aa);
            lemma_counts_concat(remove_changes(ar), add_changes(aa));
            assert forall|j: int| 0 <= j < t.changes.len() implies (#[trigger] t.changes[j] is RemoveTag
                || t.changes[j] is AddTag) && (t.changes[j] is RemoveTag ==> o.tag_support().contains_key(
                t.changes[j]->RemoveTag_0,
            )) && (t.changes[j] is AddTag ==> !current.tag_set().contains(t.changes[j]->AddTag_0)) by {
                if j < ar.len() {
                    assert(t.changes[j] == ChangeView::RemoveTag(ar[j]));
                    assert(ar.contains(ar[j]));
                    let m = choose|m: int| 0 <= m < r.len() && r[m] == ar[j];
                    assert(has_key(o.tags@, r[m]));
                } else {
                    let x = aa[j - ar.len()];
                    assert(t.changes[j] == ChangeView::AddTag(x));
                    assert(aa.contains(x));
                    let m = choose|m: int| 0 <= m < added.len() && added[m] == x;
                    assert(targeted(occ, added[m]) && !kept.contains(added[m]));
                    if current.tag_set().contains(x) {
                        assert(r.to_set().contains(x));
                        let q = choose|q: int| 0 <= q < r.len() && r[q] == x;
                        assert(!targeted(occ, r[q]));
                    }
                }
            }
            assert forall|k: u128| #[trigger] t.owned.contains_key(k) implies o.tag_support().contains_key(k)
                || t.changes.contains(ChangeView::AddTag(k)) by {
                if !o.tag_support().contains_key(k) || r.to_set().contains(k) {
                    if r.to_set().contains(k) {
                        let q = choose|q: int| 0 <= q < r.len() && r[q] == k;
                        assert(!targeted(occ, r[q]));
                    }
                    assert(targeted(occ, k) && !kept.contains(k));
                    assert(added.contains(k));
                    assert(aa.contains(k));
                    let m = choose|m: int| 0 <= m < aa.len() && aa[m] == k;
                    assert(t.changes[ar.len() + m] == ChangeView::AddTag(k));
                }
            }
        }
    }
}

/// An accepted proposal is addressed to the current Person at the revision
/// and head it was compared against, inserts and holds nothing, and counts
/// exactly the tag removals and field clears it lists.
pub proof fn law_proposal_names_its_target_and_counts_its_changes(
    baseline: Option<Snapshot>,
    current: Snapshot,
    o: Ownership,
    source: Source,
    catalog: Catalog,
    first_coverage: bool,
)
    ensures
        spec_propose(baseline, Some(current), o, source, catalog, first_coverage) matches Ok(p) ==> {
            &&& p.person == current.person
            &&& p.expected_revision == current.revision
            &&& p.expected_head == current.head
            &&& p.counts.inserts == 0
            &&& p.counts.held == 0
            &&& p.counts.tag_removals == removal_count(p.changes)
            &&& p.counts.field_clears == clear_count(p.changes)
        },
{
    let c = current;
    if let Ok(p) = spec_propose(baseline, Some(current), o, source, catalog, first_coverage) {
        let t = tag_stage(c.state, o, source.tags, catalog)->Ok_0;
        let start = FieldOutcome {
            after: c.state.field_values(),
            owned: o.field_set(),
            changes: t.changes,
            clears: 0,
            gaps: t.gaps,
            observed: t.observed,
        };
        lemma_tag_stage_record(c.state, o, source.tags, catalog);
        lemma_field_stage_appends(source.fields@, c.state.field_values(), o.field_set(), catalog, start);
        assert(o.tags.len() == o.tags@.len());
        assert(source.fields.len() == source.fields@.len());
    }
}

/// An accepted proposal acquires ownership only through its own additions: an
/// owned link was owned before or is added by it, an owned field was owned
/// before or is set by it, and it adds only links the Person lacks, so an
/// equal existing link or value is never adopted.
pub proof fn law_ownership_comes_only_from_own_additions(
    baseline: Option<Snapshot>,
    current: Snapshot,
    o: Ownership,
    source: Source,
    catalog: Catalog,
    first_coverage: bool,
)
    ensures
        spec_propose(baseline, Some(current), o, source, catalog, first_coverage) matches Ok(p) ==> {
            &&& forall|t: u128|
                #[trigger] p.owned_tags.contains_key(t) ==> o.tag_support().contains_key(t)
                    || p.changes.contains(ChangeView::AddTag(t))
            &&& forall|x: u128|
                #[trigger] p.owned_fields.contains(x) ==> o.field_set().contains(x) || exists|v: ValueView|
                    p.changes.contains(ChangeView::SetField(x, v))
            &&& forall|t: u128|
                #[trigger] p.changes.contains(ChangeView::AddTag(t)) ==> !current.state.tag_set().contains(t)
        },
{
    let c = current;
    if let Ok(p) = spec_propose(baseline, Some(current), o, source, catalog, first_coverage) {
        let t = tag_stage(c.state, o, source.tags, catalog)->Ok_0;
        let start = FieldOutcome {
            after: c.state.field_values(),
            owned: o.field_set(),
            changes: t.changes,
            clears: 0,
            gaps: t.gaps,
            observed: t.observed,
        };
        lemma_tag_stage_record(c.state, o, source.tags, catalog);
        lemma_field_stage_appends(source.fields@, c.state.field_values(), o.field_set(), catalog, start);
        lemma_field_stage_owns_by_setting(source.fields@, c.state.field_values(), o.field_set(), catalog, start);
        let n = t.changes.len() as int;
        assert forall|k: u128| #[trigger] p.owned_tags.contains_key(k) implies o.tag_support().contains_key(k)
            || p.changes.contains(ChangeView::AddTag(k)) by {
            if !o.tag_support().contains_key(k) {
                let j = choose|j: int| 0 <= j < t.changes.len() && t.changes[j] == ChangeView::AddTag(k);
                assert(p.changes.subrange(0, n)[j] == t.changes[j]);
                assert(p.changes[j] == ChangeView::AddTag(k));
            }
        }
        assert forall|k: u128| #[trigger] p.changes.contains(ChangeView::AddTag(k)) implies !c.state.tag_set().contains(
            k,
        ) by {
            let j = choose|j: int| 0 <= j < p.changes.len() && p.changes[j] == ChangeView::AddTag(k);
            if j >= n {
                assert(p.changes[j] is SetField || p.changes[j] is ClearField);
            }
            assert(p.changes.subrange(0, n)[j] == t.changes[j]);
            assert(t.changes[j] is AddTag);
        }
    }
}

/// An accepted proposal removes only owned links and clears only owned
/// fields; links and field values the refresh does not own stay as they are.
pub proof fn law_unowned_links_and_values_stay(
    baseline: Option<Snapshot>,
    current: Snapshot,
    o: Ownership,
    source: Source,
    catalog: Catalog,
    first_coverage: bool,
)
    ensures
        spec_propose(baseline, Some(current), o, source, catalog, first_coverage) matches Ok(p) ==> {
            &&& forall|t: u128|
                #[trigger] p.changes.contains(ChangeView::RemoveTag(t)) ==> o.tag_support().contains_key(t)
            &&& forall|x: u128|
                #[trigger] p.changes.contains(ChangeView::ClearField(x)) ==> o.field_set().contains(x)
            &&& forall|t: u128|
                #[trigger] current.state.tag_set().contains(t) && !o.tag_support().contains_key(t)
                    ==> p.after_tags.contains(t)
            &&& forall|x: u128|
                #[trigger] current.state.field_values().contains_key(x) && !o.field_set().contains(x)
                    ==> agrees_at(p.after_fields, current.state.field_values(), x)
        },
{
    let c = current;
    law_proposal_touches_only_owned(baseline, current, o, source, catalog, first_coverage);
    if let Ok(p) = spec_propose(baseline, Some(current), o, source, catalog, first_coverage) {
        let t = tag_stage(c.state, o, source.tags, catalog)->Ok_0;
        let start = FieldOutcome {
            after: c.state.field_values(),
            owned: o.field_set(),
            changes: t.changes,
            clears: 0,
            gaps: t.gaps,
            observed: t.observed,
        };
        lemma_tag_stage_record(c.state, o, source.tags, catalog);
        lemma_field_stage_appends(source.fields@, c.state.field_values(), o.field_set(), catalog, start);
        let n = t.changes.len() as int;
        assert forall|k: u128| #[trigger] p.changes.contains(ChangeView::RemoveTag(k)) implies o.tag_support().contains_key(
            k,
        ) by {
            let j = choose|j: int| 0 <= j < p.changes.len() && p.changes[j] == ChangeView::RemoveTag(k);
            if j >= n {
                assert(p.changes[j] is SetField || p.changes[j] is ClearField);
            }
            assert(p.changes.subrange(0, n)[j] == t.changes[j]);
            assert(t.changes[j] is RemoveTag);
        }
        assert forall|k: u128| #[trigger] p.changes.contains(ChangeView::ClearField(k)) implies o.field_set().contains(
            k,
        ) by {
            let j = choose|j: int| 0 <= j < p.changes.len() && p.changes[j] == ChangeView::ClearField(k);
            if j < n {
                assert(p.changes.subrange(0, n)[j] == t.changes[j]);
                assert(t.changes[j] is RemoveTag || t.changes[j] is AddTag);
            } else {
                assert(p.changes[j] is ClearField);
            }
        }
    }
}

/// A missing or null source tag list keeps the Person's tags and reports its
/// gap; a missing or unqualified-null source field keeps the native value and
/// reports its gap; a source that observes nothing at all is never accepted.
pub proof fn law_unobserved_source_keeps_native_state(
    baseline: Option<Snapshot>,
    current: Snapshot,
    o: Ownership,
    source: Source,
    catalog: Catalog,
    first_coverage: bool,
)
    ensures
        spec_propose(baseline, Some(current), o, source, catalog, first_coverage) matches Ok(p) ==> {
            &&& source.tags is Missing ==> p.after_tags == current.state.tag_set() && p.gaps.contains(
                Gap::MissingTags,
            )
            &&& source.tags is Null ==> p.after_tags == current.state.tag_set() && p.gaps.contains(
                Gap::NullTags,
            )
            &&& forall|i: int|
                0 <= i < source.fields@.len() && (#[trigger] retained_gap(
                    source.fields@[i].0,
                    source.fields@[i].1,
                )) is Some ==> agrees_at(p.after_fields, current.state.field_values(), source.fields@[i].0)
                    && p.gaps.contains(retained_gap(source.fields@[i].0, source.fields@[i].1)->0)
        },
        (source.tags is Missing || source.tags is Null) && (forall|i: int|
            0 <= i < source.fields@.len() ==> (#[trigger] retained_gap(
                source.fields@[i].0,
                source.fields@[i].1,
            )) is Some) ==> spec_propose(baseline, Some(current), o, source, catalog, first_coverage) is Err,
{
    let c = current;
    if let Ok(t) = tag_stage(c.state, o, source.tags, catalog) {
        let start = FieldOutcome {
            after: c.state.field_values(),
            owned: o.field_set(),
            changes: t.changes,
            clears: 0,
            gaps: t.gaps,
            observed: t.observed,
        };
        lemma_field_stage_retains(source.fields@, c.state.field_values(), o.field_set(), catalog, start);
        if source.tags is Missing {
            assert(start.gaps[0] == Gap::MissingTags);
            assert(start.gaps.contains(Gap::MissingTags));
        }
        if source.tags is Null {
            assert(start.gaps[0] == Gap::NullTags);
            assert(start.gaps.contains(Gap::NullTags));
        }
    }
}

impl Snapshot {
    pub fn copy(&self) -> (copy: Snapshot)
        requires
            self.state.wf(),
        ensures
            copy.person == self.person,
            copy.revision == self.revision,
            copy.head == self.head,
            copy.state.wf(),
            copy.state.tags@ == self.state.tags@,
            copy.state.field_values() == self.state.field_values(),
    {
        Snapshot { person: self.person, revision: self.revision, head: self.head, state: self.state.copy() }
    }
}

impl Ownership {
    pub fn copy(&self) -> (copy: Ownership)
        requires
            self.wf(),
        ensures
            copy.wf(),
            copy.tag_support() == self.tag_support(),
            copy.fields@ == self.fields@,
    {
        Ownership { tags: copy_owned(&self.tags), fields: copy_ids(&self.fields) }
    }
}

// ---------------------------------------------------------------------------
// Aliases from their 32-byte form.

/// The number a big-endian byte string denotes.
pub open spec fn be_value(s: Seq<u8>) -> nat
    decreases s.len(),
{
    if s.len() == 0 {
        0
    } else {
        be_value(s.drop_last()) * 256 + s.last() as nat
    }
}

/// The alias of a 32-byte source key: its two big-endian halves.
pub open spec fn alias_of(bytes: Seq<u8>) -> Alias {
    Alias(be_value(bytes.subrange(0, 16)) as u128, be_value(bytes.subrange(16, 32)) as u128)
}

pub open spec fn pow256(n: nat) -> nat
    decreases n,
{
    if n == 0 {
        1
    } else {
        256 * pow256((n - 1) as nat)
    }
}

proof fn lemma_be_value_bound(s: Seq<u8>)
    ensures
        be_value(s) < pow256(s.len()),
    decreases s.len(),
{
    if s.len() > 0 {
        let v = be_value(s.drop_last());
        let p = pow256((s.len() - 1) as nat);
        lemma_be_value_bound(s.drop_last());
        let last = s.last();
        assert(v * 256 + last < 256 * p) by (nonlinear_arith)
            requires
                v < p,
                last < 256,
        ;
    }
}

proof fn lemma_pow256_mono(a: nat, b: nat)
    requires
        a <= b,
    ensures
        pow256(a) <= pow256(b),
    decreases b,
{
    if a < b {
        lemma_pow256_mono(a, (b - 1) as nat);
    }
}

/// The number denoted by the 16 bytes at `start`.
fn be_half(bytes: &[u8], start: usize) -> (v: u128)
    requires
        start + 16 <= bytes@.len(),
    ensures
        v == be_value(bytes@.subrange(start as int, start + 16)),
{
    let total = bytes.len();
    let mut v: u128 = 0;
    let mut k: usize = 0;
    assert(bytes@.subrange(start as int, start as int) =~= Seq::<u8>::empty());
    while k < 16
        invariant
            k <= 16,
            total == bytes@.len(),
            start + 16 <= bytes@.len(),
            v == be_value(bytes@.subrange(start as int, start + k)),
        decreases 16 - k,
    {
        let b = bytes[start + k];
        proof {
            let s = bytes@.subrange(start as int, start + k);
            lemma_be_value_bound(s);
            lemma_pow256_mono(k as nat, 15);
            assert(pow256(15) == 1329227995784915872903807060280344576) by {
                reveal_with_fuel(pow256, 16);
            }
            assert(v * 256 + b < 340282366920938463463374607431768211456) by (nonlinear_arith)
                requires
                    v < 1329227995784915872903807060280344576int,
                    b < 256,
            ;
            assert(bytes@.subrange(start as int, start + k + 1).drop_last() =~= s);
        }
        v = v * 256 + b as u128;
        k = k + 1;
    }
    v
}

impl Alias {
    /// The alias of a source key, which must be exactly 32 bytes.
    pub fn from_bytes(bytes: &[u8]) -> (alias: Option<Alias>)
        ensures
            alias == (if bytes@.len() == 32 {
                Some(alias_of(bytes@))
            } else {
                None
            }),
    {
        if bytes.len() != 32 {
            return None;
        }
        Some(Alias(be_half(bytes, 0), be_half(bytes, 16)))
    }
}
} // verus!
