//! The background jobs: what a leased job asks for, and what becomes of a job
//! that failed.
use vstd::prelude::*;

use crate::error::{is_bad_request, ServiceError};
use crate::outside::{parse_uuid, spec_parse_uuid};
use crate::text::{concat2, str_equal};

verus! {

/// The string values that a job's payload holds under the keys the jobs read
/// (absent when the key is missing or its value is not a string).
#[derive(Debug, Clone)]
pub struct JobPayload {
    pub chunk_id: Option<String>,
    pub memory_id: Option<String>,
    pub source_id: Option<String>,
}

/// What a leased job is to do.
#[derive(Debug, Clone, Copy, PartialEq, Eq)]
pub enum JobPlan {
    /// Embed the chunk with this id.
    EmbedChunk { chunk_id: u128 },
    /// Embed the active memory with this id.
    EmbedMemory { memory_id: u128 },
    /// Extract memories from the source with this id (the proposals are
    /// checked and promoted by the extraction rules, never written as-is).
    ExtractMemories { source_id: u128 },
}

/// The view of an optional string.
pub open spec fn opt_chars(s: Option<String>) -> Option<Seq<char>> {
    match s {
        Some(t) => Some(t@),
        None => None,
    }
}

/// The UUID that a payload holds under `key`, or the message of the failure.
pub open spec fn spec_payload_id(field: Option<Seq<char>>, key: Seq<char>) -> Result<u128, Seq<char>> {
    match field {
        None => Err("job payload missing "@ + key),
        Some(s) => match spec_parse_uuid(s) {
            Some(id) => Ok(id),
            None => Err("invalid "@ + key),
        },
    }
}

/// What a job of this kind and payload is to do, or the message of the
/// failure.
pub open spec fn spec_plan_job(kind: Seq<char>, payload: JobPayload) -> Result<JobPlan, Seq<char>> {
    if kind == "embed_chunk"@ {
        match spec_payload_id(opt_chars(payload.chunk_id), "chunk_id"@) {
            Ok(id) => Ok(JobPlan::EmbedChunk { chunk_id: id }),
            Err(m) => Err(m),
        }
    } else if kind == "embed_memory"@ {
        match spec_payload_id(opt_chars(payload.memory_id), "memory_id"@) {
            Ok(id) => Ok(JobPlan::EmbedMemory { memory_id: id }),
            Err(m) => Err(m),
        }
    } else if kind == "extract_memories"@ {
        match spec_payload_id(opt_chars(payload.source_id), "source_id"@) {
            Ok(id) => Ok(JobPlan::ExtractMemories { source_id: id }),
            Err(m) => Err(m),
        }
    } else {
        Err("unknown job kind: "@ + kind)
    }
}

/// Reads the UUID that a payload holds under `key`.
pub fn payload_id(field: Option<&str>, key: &str) -> (r: Result<u128, ServiceError>)
    ensures
        match spec_payload_id(
            match field {
                Some(s) => Some(s@),
                None => None,
            },
            key@,
        ) {
            Ok(id) => r == Ok::<u128, ServiceError>(id),
            Err(m) => r matches Err(e) && is_bad_request(e, m),
        },
{
    match field {
        None => Err(ServiceError::BadRequest(concat2("job payload missing ", key))),
        Some(s) => match parse_uuid(s) {
            Ok(id) => Ok(id),
            Err(_) => Err(ServiceError::BadRequest(concat2("invalid ", key))),
        },
    }
}

/// Decides what a leased job is to do from its kind and payload.
pub fn plan_job(kind: &str, payload: &JobPayload) -> (r: Result<JobPlan, ServiceError>)
    ensures
        match spec_plan_job(kind@, *payload) {
            Ok(p) => r == Ok::<JobPlan, ServiceError>(p),
            Err(m) => r matches Err(e) && is_bad_request(e, m),
        },
{
    if str_equal(kind, "embed_chunk") {
        let field = match &payload.chunk_id {
            Some(s) => Some(s.as_str()),
            None => None,
        };
        match payload_id(field, "chunk_id") {
            Ok(id) => Ok(JobPlan::EmbedChunk { chunk_id: id }),
            Err(e) => Err(e),
        }
    } else if str_equal(kind, "embed_memory") {
        let field = match &payload.memory_id {
            Some(s) => Some(s.as_str()),
            None => None,
        };
        match payload_id(field, "memory_id") {
            Ok(id) => Ok(JobPlan::EmbedMemory { memory_id: id }),
            Err(e) => Err(e),
        }
    } else if str_equal(kind, "extract_memories") {
        let field = match &payload.source_id {
            Some(s) => Some(s.as_str()),
            None => None,
        };
        match payload_id(field, "source_id") {
            Ok(id) => Ok(JobPlan::ExtractMemories { source_id: id }),
            Err(e) => Err(e),
        }
    } else {
        Err(ServiceError::BadRequest(concat2("unknown job kind: ", kind)))
    }
}

/// The attempt from which a failed job is given up.
pub const MAX_JOB_ATTEMPTS: i32 = 8;

/// The longest wait, in seconds, before a failed job is tried again.
pub const MAX_RETRY_DELAY_SECS: u32 = 300;

/// What becomes of a job that failed.
#[derive(Debug, Clone, Copy, PartialEq, Eq)]
pub enum JobFailure {
    /// The job is given up.
    Failed,
    /// The job is tried again after this many seconds.
    RetryAfter { secs: u32 },
}

/// Two to the power `n`.
pub open spec fn two_pow(n: nat) -> nat
    decreases n,
{
    if n == 0 {
        1
    } else {
        2 * two_pow((n - 1) as nat)
    }
}

/// What becomes of a job that failed on its `attempts`-th attempt: given up
/// from the eighth attempt on, else tried again after `2^attempts` seconds
/// (at most 300; no wait for a negative count).
pub open spec fn spec_job_failure(attempts: i32) -> JobFailure {
    if attempts >= MAX_JOB_ATTEMPTS {
        JobFailure::Failed
    } else if attempts < 0 {
        JobFailure::RetryAfter { secs: 0 }
    } else {
        let d = two_pow(attempts as nat);
        JobFailure::RetryAfter {
            secs: if d > MAX_RETRY_DELAY_SECS {
                MAX_RETRY_DELAY_SECS
            } else {
                d as u32
            },
        }
    }
}

/// Decides what becomes of a job that failed on its `attempts`-th attempt.
pub fn job_failure(attempts: i32) -> (r: JobFailure)
    ensures
        r == spec_job_failure(attempts),
{
    if attempts >= MAX_JOB_ATTEMPTS {
        return JobFailure::Failed;
    }
    if attempts < 0 {
        return JobFailure::RetryAfter { secs: 0 };
    }
    let mut d: u32 = 1;
    let mut i: i32 = 0;
    while i < attempts
        invariant
            0 <= i <= attempts < MAX_JOB_ATTEMPTS,
            d == two_pow(i as nat),
            d <= 128,
        decreases attempts - i,
    {
        proof {
            lemma_two_pow_bound(i as nat);
        }
        d = d * 2;
        i = i + 1;
        assert(two_pow(i as nat) == 2 * two_pow((i - 1) as nat));
    }
    JobFailure::RetryAfter { secs: if d > MAX_RETRY_DELAY_SECS { MAX_RETRY_DELAY_SECS } else { d } }
}

proof fn lemma_two_pow_bound(n: nat)
    requires
        n < 7,
    ensures
        two_pow(n) <= 64,
{
    reveal_with_fuel(two_pow, 8);
    assert(n == 0 || n == 1 || n == 2 || n == 3 || n == 4 || n == 5 || n == 6);
}

/// Law: a failed job is given up exactly from the eighth attempt on; before
/// that it waits at most 300 seconds: two seconds after the first attempt,
/// and twice as long after each further one.
pub proof fn retry_laws(attempts: i32)
    ensures
        spec_job_failure(attempts) is Failed <==> attempts >= MAX_JOB_ATTEMPTS,
        spec_job_failure(attempts) matches JobFailure::RetryAfter { secs } ==> secs
            <= MAX_RETRY_DELAY_SECS,
        spec_job_failure(1) == (JobFailure::RetryAfter { secs: 2 }),
        1 <= attempts < MAX_JOB_ATTEMPTS - 1 ==> (spec_job_failure(attempts) matches JobFailure::RetryAfter { secs: a }
            && spec_job_failure((attempts + 1) as i32) matches JobFailure::RetryAfter { secs: b }
            && b == 2 * a),
{
    reveal_with_fuel(two_pow, 9);
    if 0 <= attempts < MAX_JOB_ATTEMPTS {
        assert(attempts == 0 || attempts == 1 || attempts == 2 || attempts == 3 || attempts == 4
            || attempts == 5 || attempts == 6 || attempts == 7);
    }
}

} // verus!
