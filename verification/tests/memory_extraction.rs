use personal_knowledge_os::memory_extraction::{
    candidate_valid_from, contains_sensitive_material, content_to_text, evidence_is_grounded,
    extraction_gate, extraction_payload, extraction_payload_is_defined, plan_candidate,
    screen_proposal, supersedes_target, supersession_outcome, validate_candidate, CandidateAction,
    CandidateRejection, ContentItem, ExistingMemory, PromotionPolicy, ProposalScreen,
    ResponseContent, SupersessionOutcome,
};
use personal_knowledge_os::text::normalize_whitespace;
use personal_knowledge_os::error::ServiceError;
use personal_knowledge_os::time::Timestamp;

#[test]
fn accepts_grounded_evidence_with_whitespace_normalization() {
    assert!(evidence_is_grounded(
        "I decided to use Bifrost.\nIt is the gateway.",
        "I decided to use Bifrost. It is the gateway."
    ));
}

#[test]
fn parses_fenced_json() {
    let raw = "```json\n{\"memories\":[{\"memory_type\":\"decision\",\"statement\":\"Use Bifrost\",\"evidence_quote\":\"Use Bifrost\",\"confidence\":0.99,\"importance\":0.9,\"valid_from\":null,\"supersedes_memory_id\":null}]}\n```";
    assert!(extraction_payload_is_defined(raw));
    let payload = extraction_payload(raw);
    let parsed: serde_json::Value =
        serde_json::from_str(&payload).expect("fenced response should parse");
    assert_eq!(parsed["memories"].as_array().unwrap().len(), 1);
}

#[test]
fn rejects_secret_like_memory_material() {
    assert!(contains_sensitive_material("api key: sk-example"));
    assert!(contains_sensitive_material("Authorization: Bearer secret"));
    assert!(!contains_sensitive_material("Prefers dark mode"));
}

#[test]
fn ungrounded_evidence_is_not_accepted() {
    assert!(!evidence_is_grounded("I decided to use Bifrost.", "I decided to use Kong."));
    assert!(evidence_is_grounded("exact words here", "words"));
}

#[test]
fn whitespace_runs_collapse_to_single_spaces() {
    assert_eq!(normalize_whitespace("  a\t\tb \n c  "), "a b c");
    assert_eq!(normalize_whitespace(" \u{3000}\n "), "");
    assert_eq!(normalize_whitespace("x\u{00A0}y"), "x y");
}

#[test]
fn payload_is_cut_from_braces_or_left_whole() {
    assert_eq!(extraction_payload("Here you go: {\"memories\":[]} thanks"), "{\"memories\":[]}");
    assert_eq!(extraction_payload("  no json  "), "no json");
    assert_eq!(extraction_payload("```\n{\"a\":1}"), "{\"a\":1}");
    assert!(!extraction_payload_is_defined("} then {"));
    assert!(extraction_payload_is_defined("}{"));
}

#[test]
fn candidate_checks_come_in_order() {
    let source = "I decided to use Bifrost as the gateway.";
    assert_eq!(validate_candidate(source, " decision ", "Use Bifrost", "use Bifrost", true), Ok(()));
    assert_eq!(
        validate_candidate(source, "opinion", "Use Bifrost", "use Bifrost", true),
        Err(CandidateRejection::UnsupportedMemoryType)
    );
    assert_eq!(
        validate_candidate(source, "decision", "   ", "use Bifrost", true),
        Err(CandidateRejection::InvalidStatementLength)
    );
    assert_eq!(
        validate_candidate(source, "decision", &"s".repeat(1001), "use Bifrost", true),
        Err(CandidateRejection::InvalidStatementLength)
    );
    assert_eq!(
        validate_candidate(source, "decision", "Use Bifrost", "use Bifrost", false),
        Err(CandidateRejection::InvalidScores)
    );
    assert_eq!(
        validate_candidate(source, "decision", "Use Bifrost", "use", true),
        Err(CandidateRejection::UngroundedEvidence)
    );
    assert_eq!(
        validate_candidate("my password: hunter2 is set", "fact", "password: hunter2", "password: hunter2", true),
        Err(CandidateRejection::SensitiveMaterial)
    );
    assert_eq!(CandidateRejection::UngroundedEvidence.reason(), "evidence quote is not grounded in source");
    assert_eq!(CandidateRejection::SensitiveMaterial.reason(), "candidate may contain secret material");
}

#[test]
fn reply_content_becomes_text() {
    assert_eq!(content_to_text(&ResponseContent::Text("hi".to_string())), Some("hi".to_string()));
    let items = vec![
        ContentItem { text: Some("one".to_string()), content: Some("ignored".to_string()) },
        ContentItem { text: None, content: None },
        ContentItem { text: None, content: Some("two".to_string()) },
    ];
    assert_eq!(content_to_text(&ResponseContent::Items(items)), Some("one\ntwo".to_string()));
    assert_eq!(content_to_text(&ResponseContent::Items(vec![])), None);
    assert_eq!(content_to_text(&ResponseContent::Other), None);
}

#[test]
fn promotion_follows_policy() {
    let auto = PromotionPolicy { auto_promote_enabled: true, keep_unpromoted_candidates: false };
    let keep = PromotionPolicy { auto_promote_enabled: true, keep_unpromoted_candidates: true };
    let manual = PromotionPolicy { auto_promote_enabled: false, keep_unpromoted_candidates: false };
    assert_eq!(plan_candidate(Some(ExistingMemory::Active { id: 5 }), false, &auto), CandidateAction::Reinforce { memory_id: 5 });
    assert_eq!(plan_candidate(Some(ExistingMemory::Candidate { id: 6 }), true, &auto), CandidateAction::PromoteExisting { memory_id: 6 });
    assert_eq!(plan_candidate(Some(ExistingMemory::Candidate { id: 6 }), false, &auto), CandidateAction::Skip);
    assert_eq!(plan_candidate(None, true, &auto), CandidateAction::Create { promote: true });
    assert_eq!(plan_candidate(None, false, &auto), CandidateAction::Skip);
    assert_eq!(plan_candidate(None, false, &keep), CandidateAction::Create { promote: false });
    assert_eq!(plan_candidate(None, true, &manual), CandidateAction::Create { promote: false });
}

#[test]
fn supersession_target_must_parse_and_be_active() {
    assert_eq!(
        supersedes_target(Some("67e55044-10b1-426f-9247-bb680e5fe0c8")),
        Some(0x67e5504410b1426f9247bb680e5fe0c8)
    );
    assert_eq!(supersedes_target(Some("not-a-uuid")), None);
    assert_eq!(supersedes_target(None), None);
    assert_eq!(supersession_outcome(true, None), SupersessionOutcome::Discard);
    assert_eq!(supersession_outcome(true, Some(3)), SupersessionOutcome::Proceed { supersedes: Some(3) });
    assert_eq!(supersession_outcome(false, None), SupersessionOutcome::Proceed { supersedes: None });
}

#[test]
fn valid_from_prefers_the_candidate_date() {
    let occurred = Some(Timestamp { secs: 1, nanos: 0 });
    assert_eq!(
        candidate_valid_from(Some("2026-09-15T12:00:00Z"), occurred),
        Some(Timestamp { secs: 1789473600, nanos: 0 })
    );
    assert_eq!(
        candidate_valid_from(Some("2026-09-15T12:00:00+09:00"), occurred),
        Some(Timestamp { secs: 1789441200, nanos: 0 })
    );
    assert_eq!(candidate_valid_from(Some("yesterday"), occurred), occurred);
    assert_eq!(candidate_valid_from(None, None), None);
}

#[test]
fn fenced_reply_gives_its_body() {
    assert_eq!(extraction_payload("```json\n{\"memories\":[]}\n```"), "{\"memories\":[]}");
    assert_eq!(extraction_payload("```\n\n```"), "");
    assert_eq!(extraction_payload("  ```text\nline one\nline two\n```  "), "line one\nline two");
}

#[test]
fn grounding_ignores_whitespace_runs() {
    let source = "We  chose\tBifrost\n as the   gateway.";
    for quote in ["chose Bifrost as", "chose\n\nBifrost   as", "  chose Bifrost as  ", "Bifrost"] {
        assert!(evidence_is_grounded(source, quote), "{quote:?}");
        assert_eq!(
            evidence_is_grounded(source, quote),
            normalize_whitespace(source).contains(&normalize_whitespace(quote))
        );
    }
    assert!(!evidence_is_grounded(source, "chose Kong"));
}

#[test]
fn extraction_runs_only_when_enabled_and_configured() {
    assert_eq!(extraction_gate(false, false), Ok(false));
    assert_eq!(extraction_gate(false, true), Ok(false));
    assert_eq!(extraction_gate(true, true), Ok(true));
    assert_eq!(
        extraction_gate(true, false),
        Err(ServiceError::Config(
            "automatic memory extraction is enabled without a configured memory provider".to_string()
        ))
    );
}

#[test]
fn proposals_are_screened() {
    let source = "I decided to use Bifrost as the gateway.";
    match screen_proposal(source, " decision ", "  Use Bifrost ", "use Bifrost", true) {
        ProposalScreen::Keep { memory_type, statement } => {
            assert_eq!(memory_type, "decision");
            assert_eq!(statement, "Use Bifrost");
        }
        other => panic!("unexpected {other:?}"),
    }
    match screen_proposal(source, "decision", "Use Bifrost", "use Kong", true) {
        ProposalScreen::Discard { reason } => assert_eq!(reason, CandidateRejection::UngroundedEvidence),
        other => panic!("unexpected {other:?}"),
    }
}
