//! The life of a memory: the checks on a new candidate and the moves between
//! statuses (a candidate is approved or rejected; an active memory is
//! superseded by the candidate that replaces it).
use vstd::prelude::*;

use crate::error::{bad_request, conflict, is_bad_request, is_conflict, ServiceError};
use crate::limits::{page_limit, spec_page_limit};
use crate::memory_extraction::ExistingMemory;
use crate::text::{byte_len, str_equal, trim, trimmed, trimmed_string, utf8_len};

verus! {

/// The status of a stored memory.
#[derive(Debug, Clone, Copy, PartialEq, Eq, Structural)]
pub enum MemoryStatus {
    Candidate,
    Active,
    Rejected,
    Superseded,
}

/// The name under which a status is stored.
pub open spec fn status_name(s: MemoryStatus) -> Seq<char> {
    match s {
        MemoryStatus::Candidate => "candidate"@,
        MemoryStatus::Active => "active"@,
        MemoryStatus::Rejected => "rejected"@,
        MemoryStatus::Superseded => "superseded"@,
    }
}

/// The status stored under a name, if the name is one.
pub open spec fn status_named(name: Seq<char>) -> Option<MemoryStatus> {
    if name == "candidate"@ {
        Some(MemoryStatus::Candidate)
    } else if name == "active"@ {
        Some(MemoryStatus::Active)
    } else if name == "rejected"@ {
        Some(MemoryStatus::Rejected)
    } else if name == "superseded"@ {
        Some(MemoryStatus::Superseded)
    } else {
        None
    }
}

/// The status after approval: only a candidate can be approved, and it
/// becomes active.
pub open spec fn approve_step(s: MemoryStatus) -> Option<MemoryStatus> {
    match s {
        MemoryStatus::Candidate => Some(MemoryStatus::Active),
        _ => None,
    }
}

/// The status after rejection: only a candidate can be rejected.
pub open spec fn reject_step(s: MemoryStatus) -> Option<MemoryStatus> {
    match s {
        MemoryStatus::Candidate => Some(MemoryStatus::Rejected),
        _ => None,
    }
}

/// The status of the memory that an approved candidate replaces: only an
/// active memory can be superseded.
pub open spec fn supersede_step(s: MemoryStatus) -> Option<MemoryStatus> {
    match s {
        MemoryStatus::Active => Some(MemoryStatus::Superseded),
        _ => None,
    }
}

impl MemoryStatus {
    /// The name under which the status is stored.
    pub fn name(&self) -> (s: &'static str)
        ensures
            s@ == status_name(*self),
    {
        match self {
            MemoryStatus::Candidate => "candidate",
            MemoryStatus::Active => "active",
            MemoryStatus::Rejected => "rejected",
            MemoryStatus::Superseded => "superseded",
        }
    }

    /// The status stored under `name`, if it is one of the four names.
    pub fn from_name(name: &str) -> (r: Option<MemoryStatus>)
        ensures
            r == status_named(name@),
    {
        if str_equal(name, "candidate") {
            Some(MemoryStatus::Candidate)
        } else if str_equal(name, "active") {
            Some(MemoryStatus::Active)
        } else if str_equal(name, "rejected") {
            Some(MemoryStatus::Rejected)
        } else if str_equal(name, "superseded") {
            Some(MemoryStatus::Superseded)
        } else {
            None
        }
    }

    /// The status after approval, if the memory can be approved.
    pub fn approved(&self) -> (r: Option<MemoryStatus>)
        ensures
            r == approve_step(*self),
    {
        match self {
            MemoryStatus::Candidate => Some(MemoryStatus::Active),
            _ => None,
        }
    }

    /// The status after rejection, if the memory can be rejected.
    pub fn rejected(&self) -> (r: Option<MemoryStatus>)
        ensures
            r == reject_step(*self),
    {
        match self {
            MemoryStatus::Candidate => Some(MemoryStatus::Rejected),
            _ => None,
        }
    }

    /// The status after being superseded, if the memory can be superseded.
    pub fn superseded(&self) -> (r: Option<MemoryStatus>)
        ensures
            r == supersede_step(*self),
    {
        match self {
            MemoryStatus::Active => Some(MemoryStatus::Superseded),
            _ => None,
        }
    }
}

/// Law: each status is read back from its stored name, and distinct statuses
/// have distinct names.
pub proof fn status_name_round_trip(s: MemoryStatus)
    ensures
        status_named(status_name(s)) == Some(s),
{
    reveal_strlit("candidate");
    reveal_strlit("active");
    reveal_strlit("rejected");
    reveal_strlit("superseded");
    if s != MemoryStatus::Candidate {
        assert(status_name(s) != "candidate"@) by {
            if s == MemoryStatus::Active || s == MemoryStatus::Rejected {
                assert(status_name(s).len() != "candidate"@.len());
            } else {
                assert(status_name(s)[0] != "candidate"@[0]);
            }
        }
    }
    if s == MemoryStatus::Rejected || s == MemoryStatus::Superseded {
        assert(status_name(s).len() != "active"@.len());
    }
    if s == MemoryStatus::Superseded {
        assert(status_name(s).len() != "rejected"@.len());
    }
}

/// Law: the moves between statuses.  Approval and rejection apply to a
/// candidate and to nothing else; supersession applies to an active memory
/// and to nothing else; no move leads back to a candidate; a rejected or
/// superseded memory never moves again.
pub proof fn lifecycle_laws(s: MemoryStatus)
    ensures
        approve_step(s) is Some <==> s == MemoryStatus::Candidate,
        reject_step(s) is Some <==> s == MemoryStatus::Candidate,
        supersede_step(s) is Some <==> s == MemoryStatus::Active,
        approve_step(s) != Some(MemoryStatus::Candidate),
        reject_step(s) != Some(MemoryStatus::Candidate),
        supersede_step(s) != Some(MemoryStatus::Candidate),
        (s == MemoryStatus::Rejected || s == MemoryStatus::Superseded) ==> approve_step(s) is None
            && reject_step(s) is None && supersede_step(s) is None,
        approve_step(s) matches Some(t) ==> reject_step(t) is None && approve_step(t) is None,
        reject_step(s) matches Some(t) ==> approve_step(t) is None && reject_step(t) is None,
{
}

/// The message of a refused approval or rejection.
pub open spec fn not_candidate_message() -> Seq<char> {
    "memory must be in candidate status"@
}

/// The stored status is present and names a candidate.
pub open spec fn names_candidate(current: Option<&str>) -> bool {
    match current {
        Some(name) => status_named(name@) == Some(MemoryStatus::Candidate),
        None => false,
    }
}

/// Checks the stored status of a memory before approving it: it must exist
/// and be a candidate.  Gives the status it then moves to.
pub fn check_approvable(current: Option<&str>) -> (r: Result<MemoryStatus, ServiceError>)
    ensures
        names_candidate(current) ==> r == Ok::<MemoryStatus, ServiceError>(MemoryStatus::Active),
        !names_candidate(current) ==> (r matches Err(e) && is_conflict(e, not_candidate_message())),
{
    let status = match current {
        Some(name) => MemoryStatus::from_name(name),
        None => None,
    };
    match status {
        Some(s) => match s.approved() {
            Some(next) => Ok(next),
            None => Err(conflict("memory must be in candidate status")),
        },
        None => Err(conflict("memory must be in candidate status")),
    }
}

/// Checks the outcome of the conditional update that rejects a candidate:
/// exactly one row changes when the memory existed as a candidate.
pub fn check_rejected(rows_affected: u64) -> (r: Result<(), ServiceError>)
    ensures
        rows_affected == 1 ==> r is Ok,
        rows_affected != 1 ==> (r matches Err(e) && is_conflict(e, not_candidate_message())),
{
    if rows_affected == 1 {
        Ok(())
    } else {
        Err(conflict("memory must be in candidate status"))
    }
}

/// Checks the outcome of the conditional update that supersedes the memory
/// an approved candidate replaces: exactly one active memory must change.
pub fn check_superseded(rows_affected: u64) -> (r: Result<(), ServiceError>)
    ensures
        rows_affected == 1 ==> r is Ok,
        rows_affected != 1 ==> (r matches Err(e) && is_conflict(
            e,
            "superseded memory must exist and be active"@,
        )),
{
    if rows_affected == 1 {
        Ok(())
    } else {
        Err(conflict("superseded memory must exist and be active"))
    }
}

/// What an equal statement already is among the owner's memories, from the
/// row that the lookup found: its id and stored status.  Only active
/// memories and candidates count.
pub fn classify_existing(id: u128, status: &str) -> (r: Option<ExistingMemory>)
    ensures
        r == match status_named(status@) {
            Some(MemoryStatus::Active) => Some(ExistingMemory::Active { id }),
            Some(MemoryStatus::Candidate) => Some(ExistingMemory::Candidate { id }),
            _ => None,
        },
{
    match MemoryStatus::from_name(status) {
        Some(MemoryStatus::Active) => Some(ExistingMemory::Active { id }),
        Some(MemoryStatus::Candidate) => Some(ExistingMemory::Candidate { id }),
        _ => None,
    }
}

/// A listing request: the status to filter by, if any, and the page size.
#[derive(Debug, Clone)]
pub struct ListMemoriesQuery {
    pub status: Option<String>,
    pub limit: Option<i64>,
}

impl ListMemoriesQuery {
    /// The page size of the listing: 50 when none is asked for, else the
    /// asked size brought into `[1, 200]`.
    pub fn page_limit(&self) -> (n: i64)
        ensures
            n == spec_page_limit(self.limit),
    {
        page_limit(self.limit)
    }
}

/// A memory candidate ready to be stored: trimmed type and statement.
#[derive(Debug)]
pub struct CandidateDraft {
    pub memory_type: String,
    pub statement: String,
}

/// The outcome of checking a request for a new memory candidate: its trimmed
/// type and statement, or the message of the first failed check.
pub open spec fn spec_check_candidate(
    memory_type: Seq<char>,
    statement: Seq<char>,
    evidence_count: nat,
) -> Result<(Seq<char>, Seq<char>), Seq<char>> {
    let t = trim(memory_type);
    let s = trim(statement);
    if t.len() == 0 || utf8_len(t) > 64 {
        Err("memory_type must be 1..=64 bytes"@)
    } else if s.len() == 0 || s.len() > 4000 {
        Err("statement must be 1..=4000 characters"@)
    } else if evidence_count == 0 {
        Err("memory requires at least one evidence source"@)
    } else {
        Ok((t, s))
    }
}

/// Checks a request for a new memory candidate, in order: its trimmed type
/// (1 to 64 bytes), its trimmed statement (1 to 4000 characters), and the
/// presence of at least one evidence source.
pub fn prepare_candidate(memory_type: &str, statement: &str, evidence: &Vec<u128>) -> (r: Result<
    CandidateDraft,
    ServiceError,
>)
    ensures
        match spec_check_candidate(memory_type@, statement@, evidence@.len()) {
            Ok((t, s)) => r matches Ok(d) && d.memory_type@ == t && d.statement@ == s,
            Err(m) => r matches Err(e) && is_bad_request(e, m),
        },
{
    let t = trimmed_string(memory_type);
    if byte_len(t.as_str()) == 0 || byte_len(t.as_str()) > 64 {
        return Err(bad_request("memory_type must be 1..=64 bytes"));
    }
    let s = trimmed(statement);
    if s.len() == 0 || s.len() > 4000 {
        return Err(bad_request("statement must be 1..=4000 characters"));
    }
    if evidence.len() == 0 {
        return Err(bad_request("memory requires at least one evidence source"));
    }
    Ok(CandidateDraft { memory_type: t, statement: crate::text::string_of(&s) })
}

/// Checks that every named evidence source exists for the owner: the lookup
/// must find as many sources as were named.
pub fn check_evidence_found(found: i64, named: usize) -> (r: Result<(), ServiceError>)
    ensures
        found == named ==> r is Ok,
        found != named ==> (r matches Err(e) && is_bad_request(
            e,
            "one or more evidence sources do not exist"@,
        )),
{
    if found >= 0 && found as u64 == named as u64 {
        Ok(())
    } else {
        Err(bad_request("one or more evidence sources do not exist"))
    }
}

} // verus!
