use personal_knowledge_os::auth::authorize;
use personal_knowledge_os::error::ServiceError;

const KEY: &str = "0123456789abcdef0123456789abcdef";

#[test]
fn bearer_token_must_equal_the_api_key() {
    assert_eq!(authorize(Some("Bearer 0123456789abcdef0123456789abcdef"), KEY), Ok(()));
    assert_eq!(authorize(Some("Bearer 0123456789abcdef0123456789abcdeF"), KEY), Err(ServiceError::Unauthorized));
    assert_eq!(authorize(Some("Bearer 0123456789abcdef0123456789abcde"), KEY), Err(ServiceError::Unauthorized));
    assert_eq!(authorize(Some("bearer 0123456789abcdef0123456789abcdef"), KEY), Err(ServiceError::Unauthorized));
    assert_eq!(authorize(Some("Bearer  0123456789abcdef0123456789abcdef"), KEY), Err(ServiceError::Unauthorized));
    assert_eq!(authorize(Some(KEY), KEY), Err(ServiceError::Unauthorized));
    assert_eq!(authorize(None, KEY), Err(ServiceError::Unauthorized));
    assert_eq!(authorize(Some("Bearer "), ""), Ok(()));
}
