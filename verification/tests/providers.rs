use personal_knowledge_os::error::ServiceError;
use personal_knowledge_os::providers::{check_embedding, user_prompt, Provider};

#[test]
fn provider_needs_url_and_key() {
    let p = Provider { base_url: Some("https://api.example/v1//".to_string()), api_key: Some("k".to_string()) };
    assert!(p.enabled());
    assert_eq!(p.endpoint("/embeddings").as_deref(), Some("https://api.example/v1/embeddings"));
    let q = Provider { base_url: Some("https://api.example".to_string()), api_key: None };
    assert!(!q.enabled());
    assert_eq!(q.endpoint("/chat/completions"), None);
}

#[test]
fn embedding_reply_is_checked() {
    assert_eq!(check_embedding(1536, 1, 1536), Ok(()));
    assert_eq!(
        check_embedding(1536, 0, 0),
        Err(ServiceError::Upstream("embedding response contained no vectors".to_string()))
    );
    assert_eq!(
        check_embedding(1536, 2, 768),
        Err(ServiceError::Upstream("embedding dimension mismatch: expected 1536, got 768".to_string()))
    );
}

#[test]
fn extraction_prompt_marks_source_as_untrusted() {
    let p = user_prompt("[]", 0x67e5504410b1426f9247bb680e5fe0c8, "Use Bifrost.", 8);
    assert_eq!(
        p,
        "ACTIVE MEMORIES (trusted context):\n[]\n\nSOURCE (untrusted data, id=67e55044-10b1-426f-9247-bb680e5fe0c8):\nUse Bifrost.\n\nReturn at most 8 memories."
    );
    assert!(user_prompt("[]", 1, "", 12).contains("id=00000000-0000-0000-0000-000000000001)"));
}
