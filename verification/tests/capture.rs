use personal_knowledge_os::capture::{
    prepare_capture, prepare_source, source_conflict, CaptureMessage, CHUNK_OVERLAP_CHARS,
    CHUNK_TARGET_CHARS, MAX_CAPTURE_MESSAGES, MAX_SOURCE_BYTES,
};
use personal_knowledge_os::chunking::chunk_text;
use personal_knowledge_os::error::ServiceError;
use personal_knowledge_os::graph::JsonShape;

fn bad(msg: &str) -> ServiceError {
    ServiceError::BadRequest(msg.to_string())
}

fn message(role: &str, content: &str, name: Option<&str>) -> CaptureMessage {
    CaptureMessage { role: role.to_string(), content: content.to_string(), name: name.map(str::to_string) }
}

#[test]
fn source_is_trimmed_fingerprinted_and_chunked() {
    let draft = prepare_source("  note ", "  Remember: keep sources immutable.  ", Some("ext-1")).unwrap();
    assert_eq!(draft.kind, "note");
    assert_eq!(draft.content, "Remember: keep sources immutable.");
    assert_eq!(draft.sha256, "2c364081115aee1bef494ec54852b5d7a7234d731dd79a572958d1fd02ecd8b3");
    assert_eq!(draft.chunks, chunk_text(&draft.content, CHUNK_TARGET_CHARS, CHUNK_OVERLAP_CHARS));
    assert_eq!(draft.chunks.len(), 1);
    let hello = prepare_source("note", "hello", None).unwrap();
    assert_eq!(hello.sha256, "2cf24dba5fb0a30e26e83b2ac5b9e29e1b161e5c1fa7425e73043362938b9824");
}

#[test]
fn source_checks_come_in_order() {
    assert_eq!(prepare_source("  ", "", None).unwrap_err(), bad("kind must be 1..=64 bytes"));
    assert_eq!(prepare_source(&"é".repeat(33), "x", None).unwrap_err(), bad("kind must be 1..=64 bytes"));
    assert!(prepare_source(&"é".repeat(32), "x", None).is_ok());
    assert_eq!(prepare_source("note", " \n ", None).unwrap_err(), bad("content must not be empty"));
    assert_eq!(
        prepare_source("note", "x", Some(&"i".repeat(513))).unwrap_err(),
        bad("external_id is too long")
    );
    assert!(prepare_source("note", "x", Some(&"i".repeat(512))).is_ok());
    let big = "a".repeat(MAX_SOURCE_BYTES + 1);
    assert_eq!(
        prepare_source("note", &big, Some(&"i".repeat(513))).unwrap_err(),
        bad("content exceeds 10 MiB API limit")
    );
}

#[test]
fn conversation_is_rendered_as_markdown() {
    let messages = vec![
        message("  USER ", "Bifrostでいきたいです", None),
        message("tool", "   ", None),
        message("assistant", "Bifrostを採用方針として整理します", Some(" helper ")),
    ];
    let draft = prepare_capture("conversation", &messages, Some("session-123:turn-42"), Some("session-123"), Some("my-agent"), JsonShape::Object).unwrap();
    assert_eq!(
        draft.source.content,
        "## user\nBifrostでいきたいです\n\n## assistant (helper)\nBifrostを採用方針として整理します"
    );
    assert_eq!(draft.source.kind, "conversation");
    assert_eq!(draft.message_count, 3);
    assert_eq!(draft.source.sha256, "82ef7ac6ad711352ee44ff79afa283d1353e03b1dc65a7709a23eebdc1048e22");
    assert_eq!(draft.source.chunks.len(), 1);
}

#[test]
fn capture_checks_come_in_order() {
    let one = vec![message("user", "hi", None)];
    assert_eq!(prepare_capture(" ", &one, None, None, None, JsonShape::Null).unwrap_err(), bad("kind must be 1..=64 bytes"));
    assert_eq!(
        prepare_capture("c", &vec![], None, None, None, JsonShape::Null).unwrap_err(),
        bad("messages must contain 1..=200 items")
    );
    let many: Vec<CaptureMessage> = (0..MAX_CAPTURE_MESSAGES + 1).map(|_| message("user", "hi", None)).collect();
    assert_eq!(
        prepare_capture("c", &many, None, None, None, JsonShape::Null).unwrap_err(),
        bad("messages must contain 1..=200 items")
    );
    assert_eq!(
        prepare_capture("c", &one, None, Some(&"s".repeat(513)), None, JsonShape::Null).unwrap_err(),
        bad("session_id is too long")
    );
    assert_eq!(
        prepare_capture("c", &one, None, None, Some(&"p".repeat(129)), JsonShape::Null).unwrap_err(),
        bad("provider is too long")
    );
    assert_eq!(
        prepare_capture("c", &vec![message(" Robot ", "hi", None)], None, None, None, JsonShape::Null).unwrap_err(),
        bad("unsupported capture role:  Robot ")
    );
    assert_eq!(
        prepare_capture("c", &vec![message("user", "hi", Some(&"n".repeat(129)))], None, None, None, JsonShape::Null).unwrap_err(),
        bad("message name is too long")
    );
    // A blank message's name is never looked at.
    assert!(prepare_capture("c", &vec![message("user", " ", Some(&"n".repeat(129))), message("user", "x", None)], None, None, None, JsonShape::Null).is_ok());
    assert_eq!(
        prepare_capture("c", &vec![message("user", "  ", None)], None, None, None, JsonShape::Other).unwrap_err(),
        bad("capture contains no non-empty messages")
    );
    assert_eq!(
        prepare_capture("c", &one, None, None, None, JsonShape::Other).unwrap_err(),
        bad("metadata must be a JSON object")
    );
    let huge = vec![message("user", &"a".repeat(MAX_SOURCE_BYTES), None)];
    assert_eq!(
        prepare_capture("c", &huge, None, None, None, JsonShape::Null).unwrap_err(),
        bad("captured conversation exceeds 10 MiB API limit")
    );
}

#[test]
fn taken_external_id_is_a_conflict() {
    assert_eq!(
        source_conflict(Some("23505")),
        Some(ServiceError::Conflict("source external_id already exists".to_string()))
    );
    assert_eq!(source_conflict(Some("23503")), None);
    assert_eq!(source_conflict(None), None);
}
