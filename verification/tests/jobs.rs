use personal_knowledge_os::error::ServiceError;
use personal_knowledge_os::jobs::{job_failure, payload_id, plan_job, JobFailure, JobPayload, JobPlan};

fn bad(msg: &str) -> ServiceError {
    ServiceError::BadRequest(msg.to_string())
}

fn payload(chunk: Option<&str>, memory: Option<&str>) -> JobPayload {
    JobPayload { chunk_id: chunk.map(str::to_string), memory_id: memory.map(str::to_string), source_id: None }
}

fn source(id: Option<&str>) -> JobPayload {
    JobPayload { chunk_id: None, memory_id: None, source_id: id.map(str::to_string) }
}

#[test]
fn jobs_are_planned_by_kind() {
    let id = "67e55044-10b1-426f-9247-bb680e5fe0c8";
    assert_eq!(
        plan_job("embed_chunk", &payload(Some(id), None)),
        Ok(JobPlan::EmbedChunk { chunk_id: 0x67e5504410b1426f9247bb680e5fe0c8 })
    );
    assert_eq!(
        plan_job("embed_memory", &payload(None, Some(id))),
        Ok(JobPlan::EmbedMemory { memory_id: 0x67e5504410b1426f9247bb680e5fe0c8 })
    );
    assert_eq!(
        plan_job("extract_memories", &source(Some(id))),
        Ok(JobPlan::ExtractMemories { source_id: 0x67e5504410b1426f9247bb680e5fe0c8 })
    );
    assert_eq!(plan_job("extract_memories", &payload(Some(id), None)), Err(bad("job payload missing source_id")));
    assert_eq!(plan_job("extract_memories", &source(Some("x"))), Err(bad("invalid source_id")));
    assert_eq!(plan_job("embed_chunk", &payload(None, Some(id))), Err(bad("job payload missing chunk_id")));
    assert_eq!(plan_job("embed_memory", &payload(None, Some("nope"))), Err(bad("invalid memory_id")));
    assert_eq!(plan_job("reindex", &payload(None, None)), Err(bad("unknown job kind: reindex")));
    assert_eq!(payload_id(Some("67E55044-10B1-426F-9247-BB680E5FE0C8"), "k"), Ok(0x67e5504410b1426f9247bb680e5fe0c8));
}

#[test]
fn failed_jobs_back_off_then_give_up() {
    assert_eq!(job_failure(-1), JobFailure::RetryAfter { secs: 0 });
    assert_eq!(job_failure(0), JobFailure::RetryAfter { secs: 1 });
    assert_eq!(job_failure(1), JobFailure::RetryAfter { secs: 2 });
    assert_eq!(job_failure(7), JobFailure::RetryAfter { secs: 128 });
    assert_eq!(job_failure(8), JobFailure::Failed);
    assert_eq!(job_failure(i32::MAX), JobFailure::Failed);
    for a in 1..7 {
        match (job_failure(a), job_failure(a + 1)) {
            (JobFailure::RetryAfter { secs: x }, JobFailure::RetryAfter { secs: y }) => assert_eq!(y, 2 * x),
            _ => panic!("attempt {a} should be retried"),
        }
    }
}
