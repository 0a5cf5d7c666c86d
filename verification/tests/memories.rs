use personal_knowledge_os::error::ServiceError;
use personal_knowledge_os::memories::{
    check_approvable, check_evidence_found, check_rejected, check_superseded, classify_existing,
    prepare_candidate, ListMemoriesQuery, MemoryStatus,
};
use personal_knowledge_os::memory_extraction::ExistingMemory;

fn bad(msg: &str) -> ServiceError {
    ServiceError::BadRequest(msg.to_string())
}

fn conflict(msg: &str) -> ServiceError {
    ServiceError::Conflict(msg.to_string())
}

#[test]
fn statuses_round_trip_through_their_names() {
    for s in [MemoryStatus::Candidate, MemoryStatus::Active, MemoryStatus::Rejected, MemoryStatus::Superseded] {
        assert_eq!(MemoryStatus::from_name(s.name()), Some(s));
    }
    assert_eq!(MemoryStatus::Superseded.name(), "superseded");
    assert_eq!(MemoryStatus::from_name("Active"), None);
}

#[test]
fn only_candidates_are_approved_or_rejected() {
    assert_eq!(MemoryStatus::Candidate.approved(), Some(MemoryStatus::Active));
    assert_eq!(MemoryStatus::Candidate.rejected(), Some(MemoryStatus::Rejected));
    assert_eq!(MemoryStatus::Active.approved(), None);
    assert_eq!(MemoryStatus::Rejected.approved(), None);
    assert_eq!(MemoryStatus::Rejected.rejected(), None);
    assert_eq!(MemoryStatus::Active.superseded(), Some(MemoryStatus::Superseded));
    assert_eq!(MemoryStatus::Candidate.superseded(), None);
    assert_eq!(MemoryStatus::Superseded.superseded(), None);
}

#[test]
fn approval_requires_a_stored_candidate() {
    assert_eq!(check_approvable(Some("candidate")), Ok(MemoryStatus::Active));
    assert_eq!(check_approvable(Some("active")), Err(conflict("memory must be in candidate status")));
    assert_eq!(check_approvable(None), Err(conflict("memory must be in candidate status")));
    assert_eq!(check_rejected(1), Ok(()));
    assert_eq!(check_rejected(0), Err(conflict("memory must be in candidate status")));
    assert_eq!(check_superseded(1), Ok(()));
    assert_eq!(check_superseded(0), Err(conflict("superseded memory must exist and be active")));
    assert_eq!(check_superseded(2), Err(conflict("superseded memory must exist and be active")));
}

#[test]
fn existing_statement_lookup_counts_active_and_candidate_memories() {
    assert_eq!(classify_existing(9, "active"), Some(ExistingMemory::Active { id: 9 }));
    assert_eq!(classify_existing(9, "candidate"), Some(ExistingMemory::Candidate { id: 9 }));
    assert_eq!(classify_existing(9, "rejected"), None);
}

#[test]
fn candidate_request_is_trimmed_and_checked_in_order() {
    let d = prepare_candidate(" decision ", "  Use Bifrost  ", &vec![1]).unwrap();
    assert_eq!(d.memory_type, "decision");
    assert_eq!(d.statement, "Use Bifrost");
    assert_eq!(prepare_candidate(" ", "", &vec![]).unwrap_err(), bad("memory_type must be 1..=64 bytes"));
    assert_eq!(prepare_candidate(&"t".repeat(65), "s", &vec![1]).unwrap_err(), bad("memory_type must be 1..=64 bytes"));
    assert_eq!(prepare_candidate("fact", " ", &vec![]).unwrap_err(), bad("statement must be 1..=4000 characters"));
    assert!(prepare_candidate("fact", &"é".repeat(4000), &vec![1]).is_ok());
    assert_eq!(
        prepare_candidate("fact", &"é".repeat(4001), &vec![1]).unwrap_err(),
        bad("statement must be 1..=4000 characters")
    );
    assert_eq!(prepare_candidate("fact", "s", &vec![]).unwrap_err(), bad("memory requires at least one evidence source"));
    assert_eq!(check_evidence_found(2, 2), Ok(()));
    assert_eq!(check_evidence_found(1, 2), Err(bad("one or more evidence sources do not exist")));
}

#[test]
fn memory_listing_page_is_clamped() {
    assert_eq!(ListMemoriesQuery { status: None, limit: None }.page_limit(), 50);
    assert_eq!(ListMemoriesQuery { status: Some("active".to_string()), limit: Some(-3) }.page_limit(), 1);
    assert_eq!(ListMemoriesQuery { status: None, limit: Some(201) }.page_limit(), 200);
    assert_eq!(ListMemoriesQuery { status: None, limit: Some(77) }.page_limit(), 77);
}
