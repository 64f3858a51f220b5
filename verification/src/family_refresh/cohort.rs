//! Freezing the cohort a page at a time: the claim that may do it, and what
//! one page of identity proofs adds to the frozen cohort and its counters.
use crate::core_change_worker::{parse_digits, read_digits};
use crate::error::MigrationError;
use super::model::{decimal_digits, decimal_text};
use vstd::prelude::*;

verus! {

/// Outcome of freezing one page of identity proofs.
#[derive(Debug, Clone, Copy, PartialEq, Eq, Structural)]
pub enum Progress {
    Advanced { examined: usize, included: usize, finished: bool },
    Finished,
    Capacity,
}

/// A page holds 1 to 50 proofs, under a positive lease epoch.
pub fn freeze_request_ok(limit: u16, epoch: i64) -> (ok: bool)
    ensures
        ok == (0 < limit <= 50 && epoch > 0),
{
    0 < limit && limit <= 50 && epoch > 0
}

/// What the locked bundle and plan rows say of a freezing claim.
#[derive(Debug, Clone)]
pub struct LeaseFacts {
    /// The bundle's executor, and the active admin membership found for it.
    pub bundle_executor: u128,
    pub executor: u128,
    pub bundle_state: String,
    pub payer_plan: Option<u128>,
    pub bundle_confirmed: bool,
    pub plan_state: String,
    pub plan_confirmed: bool,
    pub lease_token: Option<u128>,
    pub lease_epoch: i64,
    pub live_lease: Option<bool>,
}

/// The claim still holds the paying plan's live lease on an unconfirmed,
/// preparing bundle run by its executor.
pub open spec fn lease_held(plan: u128, token: u128, epoch: i64, f: LeaseFacts) -> bool {
    &&& f.bundle_executor == f.executor
    &&& f.bundle_state@ == "preparing"@
    &&& f.payer_plan == Some(plan)
    &&& !f.bundle_confirmed
    &&& f.plan_state@ == "preparing"@
    &&& !f.plan_confirmed
    &&& f.lease_token == Some(token)
    &&& f.lease_epoch == epoch
    &&& f.live_lease == Some(true)
}

fn is_word(s: &String, word: &str) -> (same: bool)
    ensures
        same == (s@ == word@),
{
    *s == word.to_owned()
}

pub fn holds_lease(plan: u128, token: u128, epoch: i64, f: &LeaseFacts) -> (held: bool)
    ensures
        held == lease_held(plan, token, epoch, *f),
{
    let payer = match f.payer_plan {
        Some(p) => p == plan,
        None => false,
    };
    let leased = match f.lease_token {
        Some(t) => t == token,
        None => false,
    };
    let live = match f.live_lease {
        Some(b) => b,
        None => false,
    };
    f.bundle_executor == f.executor && is_word(&f.bundle_state, "preparing") && payer
        && !f.bundle_confirmed && is_word(&f.plan_state, "preparing") && !f.plan_confirmed && leased
        && f.lease_epoch == epoch && live
}

/// One identity proof of the page, in source order.
#[derive(Debug, Clone)]
pub struct CohortRow {
    pub source_id: String,
    pub disposition: String,
}

/// The counters, by disposition: each a JSON string value (`None` for a
/// value that is not a string).
pub type Counters = Vec<(String, Option<Vec<u8>>)>;

pub open spec fn counter_keys_unique(c: Seq<(String, Option<Vec<u8>>)>) -> bool {
    forall|i: int, j: int| 0 <= i < j < c.len() ==> c[i].0@ != c[j].0@
}

pub open spec fn opt_bytes(v: Option<Vec<u8>>) -> Option<Seq<u8>> {
    match v {
        Some(b) => Some(b@),
        None => None,
    }
}

pub open spec fn counter_map(c: Seq<(String, Option<Vec<u8>>)>) -> Map<Seq<char>, Option<Seq<u8>>>
    decreases c.len(),
{
    if c.len() == 0 {
        Map::empty()
    } else {
        counter_map(c.drop_last()).insert(c.last().0@, opt_bytes(c.last().1))
    }
}

/// A counter's value as its text reads as an unsigned 64-bit number: an
/// optional plus sign and decimal digits.
pub open spec fn counter_value(t: Seq<u8>) -> Option<u64> {
    if t.len() > 0 && t[0] == 43 {
        read_digits(t.drop_first())
    } else {
        read_digits(t)
    }
}

/// The counters after one more proof of disposition `d`.
pub open spec fn count_one(m: Map<Seq<char>, Option<Seq<u8>>>, d: Seq<char>) -> Result<
    Map<Seq<char>, Option<Seq<u8>>>,
    MigrationError,
> {
    let previous = if !m.contains_key(d) {
        Some(0u64)
    } else {
        match m[d] {
            Some(t) => counter_value(t),
            None => None,
        }
    };
    match previous {
        None => Err(MigrationError::Crypto),
        Some(p) => if p + 1 > i64::MAX {
            Err(MigrationError::StorageLimit)
        } else {
            Ok(m.insert(d, Some(decimal_digits((p + 1) as nat))))
        },
    }
}

/// The counters after the first `n` proofs of the page.
pub open spec fn count_rows(m: Map<Seq<char>, Option<Seq<u8>>>, rows: Seq<CohortRow>, n: nat) -> Result<
    Map<Seq<char>, Option<Seq<u8>>>,
    MigrationError,
>
    decreases n,
{
    if n == 0 {
        Ok(m)
    } else {
        match count_rows(m, rows, (n - 1) as nat) {
            Err(e) => Err(e),
            Ok(m1) => count_one(m1, rows[n - 1].disposition@),
        }
    }
}

/// Proofs of these dispositions join the cohort.
pub open spec fn joins(d: Seq<char>) -> bool {
    d == "original"@ || d == "admitted"@ || d == "recovery"@
}

/// Positions among the first `n` proofs of those that join the cohort.
pub open spec fn joining(rows: Seq<CohortRow>, n: nat) -> Seq<usize>
    decreases n,
{
    if n == 0 {
        Seq::empty()
    } else if joins(rows[n - 1].disposition@) {
        joining(rows, (n - 1) as nat).push((n - 1) as usize)
    } else {
        joining(rows, (n - 1) as nat)
    }
}

/// A frozen page lists exactly the examined proofs that join the cohort: a
/// proof is included if and only if its disposition is original, admitted or
/// recovery, and the list follows the page's order without repeats.
pub proof fn law_cohort_takes_exactly_the_joining_proofs(rows: Seq<CohortRow>, n: nat)
    requires
        n <= rows.len(),
        n <= usize::MAX,
    ensures
        forall|i: int|
            0 <= i < n ==> (joining(rows, n).contains(i as usize) <==> (rows[i].disposition@ == "original"@
                || rows[i].disposition@ == "admitted"@ || rows[i].disposition@ == "recovery"@)),
        forall|j: int| 0 <= j < joining(rows, n).len() ==> #[trigger] joining(rows, n)[j] < n,
        forall|a: int, b: int|
            0 <= a < b < joining(rows, n).len() ==> #[trigger] joining(rows, n)[a] < #[trigger] joining(rows, n)[b],
    decreases n,
{
    if n > 0 {
        let m = (n - 1) as nat;
        law_cohort_takes_exactly_the_joining_proofs(rows, m);
        let prev = joining(rows, m);
        let cur = joining(rows, n);
        assert forall|i: int| 0 <= i < n implies (cur.contains(i as usize) <==> (rows[i].disposition@ == "original"@
            || rows[i].disposition@ == "admitted"@ || rows[i].disposition@ == "recovery"@)) by {
            if i < m {
                if cur.contains(i as usize) {
                    let j = choose|j: int| 0 <= j < cur.len() && cur[j] == i as usize;
                    if j < prev.len() {
                        assert(prev[j] == i as usize);
                    }
                }
                if prev.contains(i as usize) {
                    let j = choose|j: int| 0 <= j < prev.len() && prev[j] == i as usize;
                    assert(cur[j] == i as usize);
                }
            } else {
                if joins(rows[m as int].disposition@) {
                    assert(cur[prev.len() as int] == m as usize);
                } else {
                    assert(cur == prev);
                    if cur.contains(i as usize) {
                        let j = choose|j: int| 0 <= j < cur.len() && cur[j] == i as usize;
                        assert(prev[j] < m);
                    }
                }
            }
        }
    }
}

/// What one page adds to the frozen cohort.
#[derive(Debug, Clone)]
pub struct CohortStep {
    /// How many proofs of the page were taken (at most the limit).
    pub examined: usize,
    /// No proof lies beyond this page.
    pub finished: bool,
    /// The source id to continue after.
    pub last: String,
    pub counters: Counters,
    /// The positions of the proofs that join the cohort.
    pub included: Vec<usize>,
}

pub open spec fn examined_of(limit: u16, fetched: nat) -> nat {
    if fetched < limit {
        fetched
    } else {
        limit as nat
    }
}

fn find_counter(c: &Counters, d: &String) -> (r: Option<usize>)
    requires
        counter_keys_unique(c@),
    ensures
        match r {
            Some(i) => i < c@.len() && c@[i as int].0@ == d@,
            None => forall|i: int| 0 <= i < c@.len() ==> c@[i].0@ != d@,
        },
{
    let mut i: usize = 0;
    while i < c.len()
        invariant
            i <= c@.len(),
            forall|k: int| 0 <= k < i ==> c@[k].0@ != d@,
        decreases c.len() - i,
    {
        if c[i].0 == *d {
            return Some(i);
        }
        i = i + 1;
    }
    None
}

proof fn lemma_counter_map_absent(c: Seq<(String, Option<Vec<u8>>)>, k: Seq<char>)
    requires
        forall|i: int| 0 <= i < c.len() ==> c[i].0@ != k,
    ensures
        !counter_map(c).contains_key(k),
    decreases c.len(),
{
    if c.len() > 0 {
        lemma_counter_map_absent(c.drop_last(), k);
    }
}

proof fn lemma_counter_map_at(c: Seq<(String, Option<Vec<u8>>)>, i: int)
    requires
        counter_keys_unique(c),
        0 <= i < c.len(),
    ensures
        counter_map(c).contains_key(c[i].0@),
        counter_map(c)[c[i].0@] == opt_bytes(c[i].1),
    decreases c.len(),
{
    if i < c.len() - 1 {
        lemma_counter_map_at(c.drop_last(), i);
    }
}

proof fn lemma_counter_map_set(c: Seq<(String, Option<Vec<u8>>)>, i: int, v: Option<Vec<u8>>)
    requires
        counter_keys_unique(c),
        0 <= i < c.len(),
    ensures
        counter_keys_unique(c.update(i, (c[i].0, v))),
        counter_map(c.update(i, (c[i].0, v))) == counter_map(c).insert(c[i].0@, opt_bytes(v)),
    decreases c.len(),
{
    let u = c.update(i, (c[i].0, v));
    if i == c.len() - 1 {
        assert(u.drop_last() =~= c.drop_last());
        lemma_counter_map_at(c, i);
        assert(counter_map(u) =~= counter_map(c).insert(c[i].0@, opt_bytes(v)));
    } else {
        lemma_counter_map_set(c.drop_last(), i, v);
        assert(u.drop_last() =~= c.drop_last().update(i, (c[i].0, v)));
        assert(u.last() == c.last());
        assert(c.last().0@ != c[i].0@);
        assert(counter_map(u) =~= counter_map(c).insert(c[i].0@, opt_bytes(v)));
    }
}

fn counter_text(v: &Vec<u8>) -> (r: Option<u64>)
    ensures
        r == counter_value(v@),
{
    if v.len() > 0 && v[0] == 43 {
        let r = parse_digits(v.as_slice(), 1);
        assert(v@.subrange(1, v@.len() as int) =~= v@.drop_first());
        r
    } else {
        let r = parse_digits(v.as_slice(), 0);
        assert(v@.subrange(0, v@.len() as int) =~= v@);
        r
    }
}

fn count_disposition(c: &mut Counters, d: &String) -> (r: Result<(), MigrationError>)
    requires
        counter_keys_unique(old(c)@),
    ensures
        counter_keys_unique(final(c)@),
        match r {
            Ok(()) => count_one(counter_map(old(c)@), d@) == Ok::<
                Map<Seq<char>, Option<Seq<u8>>>,
                MigrationError,
            >(counter_map(final(c)@)),
            Err(e) => count_one(counter_map(old(c)@), d@) == Err::<
                Map<Seq<char>, Option<Seq<u8>>>,
                MigrationError,
            >(e),
        },
{
    match find_counter(c, d) {
        Some(i) => {
            proof {
                lemma_counter_map_at(c@, i as int);
            }
            let previous = match &c[i].1 {
                Some(t) => counter_text(t),
                None => None,
            };
            let p = match previous {
                Some(p) => p,
                None => return Err(MigrationError::Crypto),
            };
            if p >= i64::MAX as u64 {
                return Err(MigrationError::StorageLimit);
            }
            let text = decimal_text(p + 1);
            let key = c[i].0.clone();
            proof {
                lemma_counter_map_set(c@, i as int, Some(text));
            }
            c.set(i, (key, Some(text)));
            Ok(())
        },
        None => {
            proof {
                lemma_counter_map_absent(c@, d@);
            }
            let text = decimal_text(1);
            let ghost before = c@;
            c.push((d.clone(), Some(text)));
            proof {
                assert(c@.drop_last() =~= before);
                assert forall|i: int, j: int| 0 <= i < j < c@.len() implies c@[i].0@ != c@[j].0@ by {
                    if j == c@.len() - 1 {
                        assert(c@[i] == before[i]);
                    }
                }
            }
            Ok(())
        },
    }
}

/// Takes up to `limit` proofs of the page (`rows` holds one more when the
/// cohort goes on), counts each by disposition and lists those that join.
pub fn cohort_step(limit: u16, after: &String, counters: Counters, rows: &Vec<CohortRow>) -> (r: Result<
    CohortStep,
    MigrationError,
>)
    requires
        counter_keys_unique(counters@),
    ensures
        match r {
            Ok(s) => {
                let n = examined_of(limit, rows@.len());
                &&& s.examined == n
                &&& s.finished == (rows@.len() <= limit)
                &&& s.last@ == (if n == 0 { after@ } else { rows@[n - 1].source_id@ })
                &&& count_rows(counter_map(counters@), rows@, n) == Ok::<
                    Map<Seq<char>, Option<Seq<u8>>>,
                    MigrationError,
                >(counter_map(s.counters@))
                &&& counter_keys_unique(s.counters@)
                &&& s.included@ == joining(rows@, n)
            },
            Err(e) => count_rows(counter_map(counters@), rows@, examined_of(limit, rows@.len()))
                == Err::<Map<Seq<char>, Option<Seq<u8>>>, MigrationError>(e),
        },
{
    let lim = limit as usize;
    let examined = if rows.len() < lim {
        rows.len()
    } else {
        lim
    };
    let finished = rows.len() <= lim;
    let mut work = counters;
    let ghost start = counter_map(work@);
    let mut last = after.clone();
    let mut included: Vec<usize> = Vec::new();
    let mut i: usize = 0;
    while i < examined
        invariant
            examined <= rows@.len(),
            examined as nat == examined_of(limit, rows@.len()),
            start == counter_map(counters@),
            i <= examined,
            counter_keys_unique(work@),
            count_rows(start, rows@, i as nat) == Ok::<Map<Seq<char>, Option<Seq<u8>>>, MigrationError>(
                counter_map(work@),
            ),
            last@ == (if i == 0 { after@ } else { rows@[i - 1].source_id@ }),
            included@ == joining(rows@, i as nat),
        decreases examined - i,
    {
        let row = &rows[i];
        last = row.source_id.clone();
        let ghost pre = work@;
        match count_disposition(&mut work, &row.disposition) {
            Ok(()) => {},
            Err(e) => {
                proof {
                    assert(count_rows(start, rows@, (i + 1) as nat) == count_one(
                        counter_map(pre),
                        rows@[i as int].disposition@,
                    ));
                    lemma_count_error_persists(start, rows@, (i + 1) as nat, examined as nat);
                }
                return Err(e);
            },
        }
        let joins_cohort = is_word(&row.disposition, "original") || is_word(&row.disposition, "admitted")
            || is_word(&row.disposition, "recovery");
        if joins_cohort {
            included.push(i);
        }
        i = i + 1;
    }
    Ok(CohortStep { examined, finished, last, counters: work, included })
}

proof fn lemma_count_error_persists(
    m: Map<Seq<char>, Option<Seq<u8>>>,
    rows: Seq<CohortRow>,
    k: nat,
    n: nat,
)
    requires
        k <= n,
        count_rows(m, rows, k) is Err,
    ensures
        count_rows(m, rows, n) == count_rows(m, rows, k),
    decreases n - k,
{
    if n > k {
        lemma_count_error_persists(m, rows, k, (n - 1) as nat);
    }
}

} // verus!
