//! Requests of the core change report: page requests, and the decisions
//! that start, resume and cancel a report.
use crate::core_change_source::{change_family_name, disposition_name, ChangeFamily, Disposition};
use crate::error::MigrationError;
use vstd::prelude::*;
use vstd::string::StringSliceAdditionalSpecFns;
use vstd::utf8::encode_utf8;

verus! {

/// Longest accepted page cursor, in bytes.
pub const MAX_CURSOR_BYTES: usize = 4096;

pub struct ReportRequest {
    pub request_id: u128,
}

/// A page of report groups, optionally filtered by family and disposition.
pub struct ReportPage {
    pub parent_import_id: Option<u128>,
    pub cursor: Option<String>,
    pub limit: Option<u16>,
    pub family: Option<String>,
    pub disposition: Option<String>,
}

pub open spec fn is_family_name(s: Seq<char>) -> bool {
    exists|f: ChangeFamily| change_family_name(f) == s
}

pub open spec fn is_disposition_name(s: Seq<char>) -> bool {
    exists|d: Disposition| disposition_name(d) == s
}

/// The page size a request asks for, or the reason it is refused.
pub open spec fn page_limit(page: ReportPage, max: u16) -> Result<i64, MigrationError> {
    let n = match page.limit {
        Some(l) => l,
        None => max,
    };
    if n == 0 || n > max || (page.cursor matches Some(c) && encode_utf8(c@).len() > MAX_CURSOR_BYTES)
        || (page.family matches Some(f) && !is_family_name(f@)) || (page.disposition matches Some(d)
        && !is_disposition_name(d@)) {
        Err(MigrationError::InvalidInput)
    } else {
        Ok(n as i64)
    }
}

fn known_family(s: &String) -> (known: bool)
    ensures
        known == is_family_name(s@),
{
    let all = [
        ChangeFamily::People,
        ChangeFamily::Users,
        ChangeFamily::Stages,
        ChangeFamily::CustomFields,
        ChangeFamily::Notes,
        ChangeFamily::Tasks,
    ];
    let mut i: usize = 0;
    while i < 6
        invariant
            i <= 6,
            all@ == seq![
                ChangeFamily::People,
                ChangeFamily::Users,
                ChangeFamily::Stages,
                ChangeFamily::CustomFields,
                ChangeFamily::Notes,
                ChangeFamily::Tasks,
            ],
            forall|j: int| 0 <= j < i ==> change_family_name(#[trigger] all@[j]) != s@,
        decreases 6 - i,
    {
        let name = all[i].as_str().to_owned();
        if name.eq(s) {
            return true;
        }
        i = i + 1;
    }
    proof {
        assert forall|f: ChangeFamily| change_family_name(f) != s@ by {
            match f {
                ChangeFamily::People => assert(all@[0] == f),
                ChangeFamily::Users => assert(all@[1] == f),
                ChangeFamily::Stages => assert(all@[2] == f),
                ChangeFamily::CustomFields => assert(all@[3] == f),
                ChangeFamily::Notes => assert(all@[4] == f),
                ChangeFamily::Tasks => assert(all@[5] == f),
            }
        }
    }
    false
}

fn known_disposition(s: &String) -> (known: bool)
    ensures
        known == is_disposition_name(s@),
{
    let all = [
        Disposition::Unchanged,
        Disposition::Changed,
        Disposition::NewlyObserved,
        Disposition::NotSeenAgain,
        Disposition::Unresolved,
    ];
    let mut i: usize = 0;
    while i < 5
        invariant
            i <= 5,
            all@ == seq![
                Disposition::Unchanged,
                Disposition::Changed,
                Disposition::NewlyObserved,
                Disposition::NotSeenAgain,
                Disposition::Unresolved,
            ],
            forall|j: int| 0 <= j < i ==> disposition_name(#[trigger] all@[j]) != s@,
        decreases 5 - i,
    {
        let name = all[i].as_str().to_owned();
        if name.eq(s) {
            return true;
        }
        i = i + 1;
    }
    proof {
        assert forall|d: Disposition| disposition_name(d) != s@ by {
            match d {
                Disposition::Unchanged => assert(all@[0] == d),
                Disposition::Changed => assert(all@[1] == d),
                Disposition::NewlyObserved => assert(all@[2] == d),
                Disposition::NotSeenAgain => assert(all@[3] == d),
                Disposition::Unresolved => assert(all@[4] == d),
            }
        }
    }
    false
}

impl ReportPage {
    /// The page size, at most `max`, of a well-formed page request.
    pub fn limit(&self, max: u16) -> (r: Result<i64, MigrationError>)
        ensures
            r == page_limit(*self, max),
    {
        let n = match self.limit {
            Some(l) => l,
            None => max,
        };
        let long_cursor = match &self.cursor {
            Some(c) => c.as_str().as_bytes().len() > MAX_CURSOR_BYTES,
            None => false,
        };
        let bad_family = match &self.family {
            Some(f) => !known_family(f),
            None => false,
        };
        let bad_disposition = match &self.disposition {
            Some(d) => !known_disposition(d),
            None => false,
        };
        if n == 0 || n > max || long_cursor || bad_family || bad_disposition {
            return Err(MigrationError::InvalidInput);
        }
        Ok(n as i64)
    }
}

/// How a report request starts.
#[derive(Debug, Clone, Copy, PartialEq, Eq, Structural)]
pub enum ReportStart {
    /// A live report for the same inputs is answered again.
    Existing { report_id: u128 },
    /// A new report is queued.
    New,
}

/// A request for inputs that already have a live report reuses it; a new
/// report is refused while another report of the tenant is queued, running
/// or paused.
pub fn report_start(existing: Option<u128>, another_active: bool) -> (r: Result<ReportStart, MigrationError>)
    ensures
        r == match existing {
            Some(id) => Ok::<ReportStart, MigrationError>(ReportStart::Existing { report_id: id }),
            None => if another_active {
                Err(MigrationError::Conflict)
            } else {
                Ok(ReportStart::New)
            },
        },
{
    match existing {
        Some(id) => Ok(ReportStart::Existing { report_id: id }),
        None => if another_active {
            Err(MigrationError::Conflict)
        } else {
            Ok(ReportStart::New)
        },
    }
}

/// The states in which a report keeps its tenant busy.
pub open spec fn active_state(state: Seq<char>) -> bool {
    state == "queued"@ || state == "running"@ || state == "paused"@
}

fn is_word(s: &str, w: &str) -> (same: bool)
    ensures
        same == (s@ == w@),
{
    s.to_owned() == w.to_owned()
}

pub fn is_active(state: &str) -> (active: bool)
    ensures
        active == active_state(state@),
{
    is_word(state, "queued") || is_word(state, "running") || is_word(state, "paused")
}

/// Only the user who started a report resumes it.
pub fn resume_actor(initiator: u128, actor: u128) -> (r: Result<(), MigrationError>)
    ensures
        r is Ok <==> initiator == actor,
        r matches Err(e) ==> e == MigrationError::Forbidden,
{
    if initiator == actor {
        Ok(())
    } else {
        Err(MigrationError::Forbidden)
    }
}

/// A report that is not a replayed request resumes only from a pause.
pub fn resume_state(state: &str) -> (r: Result<(), MigrationError>)
    ensures
        r is Ok <==> state@ == "paused"@,
        r matches Err(e) ==> e == MigrationError::Conflict,
{
    if is_word(state, "paused") {
        Ok(())
    } else {
        Err(MigrationError::Conflict)
    }
}

/// A completed report cannot be cancelled.
pub fn cancel_state(state: &str) -> (r: Result<(), MigrationError>)
    ensures
        r is Ok <==> state@ != "completed"@,
        r matches Err(e) ==> e == MigrationError::Conflict,
{
    if is_word(state, "completed") {
        Err(MigrationError::Conflict)
    } else {
        Ok(())
    }
}

} // verus!
