use personal_knowledge_os::error::ServiceError;
use personal_knowledge_os::models::{default_true, HealthResponse};

#[test]
fn errors_map_to_statuses_codes_and_messages() {
    let cases = [
        (ServiceError::Unauthorized, 401, "unauthorized", "unauthorized"),
        (ServiceError::NotFound("memory".into()), 404, "not_found", "not found: memory"),
        (ServiceError::BadRequest("x".into()), 400, "bad_request", "invalid request: x"),
        (ServiceError::Conflict("y".into()), 409, "conflict", "conflict: y"),
        (ServiceError::Upstream("z".into()), 500, "internal_error", "internal server error"),
        (ServiceError::Config("w".into()), 500, "internal_error", "internal server error"),
    ];
    for (e, status, code, message) in cases {
        assert_eq!(e.status_code(), status);
        assert_eq!(e.code(), code);
        assert_eq!(e.client_message(), message);
    }
    assert_eq!(ServiceError::Upstream("z".into()).describe(), "upstream error: z");
    assert_eq!(ServiceError::Config("w".into()).describe(), "configuration error: w");
}

#[test]
fn health_reports_and_switch_default() {
    assert!(default_true());
    assert_eq!(HealthResponse::live(), HealthResponse { status: "ok", database: "unchecked" });
    assert_eq!(HealthResponse::ready(), HealthResponse { status: "ok", database: "ok" });
}
