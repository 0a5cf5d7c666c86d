use personal_knowledge_os::config::{load_settings, parse_bool, ConfigError, EnvVars};

fn s(v: &str) -> Option<String> {
    Some(v.to_string())
}

fn minimal() -> EnvVars {
    EnvVars {
        database_url: s("postgres://localhost/pkos"),
        owner_id: None,
        api_key: s("0123456789abcdef0123456789abcdef"),
        embedding_dimensions: None,
        openai_base_url: None,
        openai_api_key: None,
        memory_base_url: None,
        memory_api_key: None,
        memory_extraction_enabled: None,
        memory_max_candidates_per_source: None,
        memory_context_limit: None,
        database_max_connections: None,
        lexical_backend: None,
        search_candidate_limit: None,
        search_result_limit: None,
        worker_poll_ms: None,
        worker_batch_size: None,
        worker_enabled: None,
        embedding_model: None,
        memory_model: None,
        memory_auto_promote_enabled: None,
        memory_keep_unpromoted_candidates: None,
    }
}

fn invalid(name: &'static str, message: &str) -> ConfigError {
    ConfigError::Invalid { name, message: message.to_string() }
}

#[test]
fn defaults_fill_unset_settings() {
    let st = load_settings(&minimal(), Ok(())).unwrap();
    assert_eq!(st.owner_id, 1);
    assert_eq!(st.database_max_connections, 20);
    assert_eq!(st.lexical_backend, "pgroonga");
    assert_eq!((st.search_candidate_limit, st.search_result_limit), (40, 12));
    assert_eq!((st.worker_poll_ms, st.worker_batch_size), (1000, 8));
    assert!(st.worker_enabled);
    assert_eq!(st.embedding_model, "text-embedding-3-small");
    assert_eq!(st.embedding_dimensions, 1536);
    assert_eq!(st.memory_model, "gpt-5-mini");
    assert!(!st.memory_extraction_enabled);
    assert!(st.memory_auto_promote_enabled);
    assert!(!st.memory_keep_unpromoted_candidates);
    assert_eq!((st.memory_max_candidates_per_source, st.memory_context_limit), (8, 50));
    assert_eq!((st.openai_base_url, st.memory_base_url), (None, None));
}

#[test]
fn memory_provider_falls_back_to_the_openai_provider() {
    let mut env = minimal();
    env.openai_base_url = s("https://api.example/v1");
    env.openai_api_key = s("key");
    env.memory_api_key = s("  ");
    env.memory_extraction_enabled = s("YES");
    env.worker_batch_size = s("-4");
    env.search_result_limit = s("+7");
    let st = load_settings(&env, Ok(())).unwrap();
    assert_eq!(st.memory_base_url.as_deref(), Some("https://api.example/v1"));
    assert_eq!(st.memory_api_key.as_deref(), Some("key"));
    assert!(st.memory_extraction_enabled);
    assert_eq!(st.worker_batch_size, -4);
    assert_eq!(st.search_result_limit, 7);
}

#[test]
fn settings_errors_come_in_order() {
    let mut env = minimal();
    env.database_url = s("   ");
    env.api_key = None;
    assert_eq!(load_settings(&env, Ok(())).unwrap_err(), ConfigError::Missing("DATABASE_URL"));

    let mut env = minimal();
    env.owner_id = s("owner");
    env.api_key = None;
    match load_settings(&env, Ok(())).unwrap_err() {
        ConfigError::Invalid { name, .. } => assert_eq!(name, "PKOS_OWNER_ID"),
        other => panic!("unexpected {other:?}"),
    }

    let mut env = minimal();
    env.api_key = None;
    assert_eq!(load_settings(&env, Ok(())).unwrap_err(), ConfigError::Missing("PKOS_API_KEY"));

    let mut env = minimal();
    env.api_key = s("short");
    assert_eq!(load_settings(&env, Ok(())).unwrap_err(), invalid("PKOS_API_KEY", "must be at least 32 bytes"));

    let mut env = minimal();
    env.embedding_dimensions = s("768");
    assert_eq!(
        load_settings(&env, Ok(())).unwrap_err(),
        invalid("PKOS_EMBEDDING_DIMENSIONS", "v1 schema is fixed to 1536 dimensions")
    );

    let mut env = minimal();
    env.embedding_dimensions = s("lots");
    assert_eq!(
        load_settings(&env, Ok(())).unwrap_err(),
        invalid("PKOS_EMBEDDING_DIMENSIONS", "invalid digit found in string")
    );

    let mut env = minimal();
    env.memory_extraction_enabled = s("maybe");
    assert_eq!(
        load_settings(&env, Ok(())).unwrap_err(),
        invalid("PKOS_MEMORY_EXTRACTION_ENABLED", "expected boolean")
    );

    let mut env = minimal();
    env.memory_extraction_enabled = s("on");
    env.memory_base_url = s("https://llm.example");
    assert_eq!(
        load_settings(&env, Ok(())).unwrap_err(),
        invalid(
            "PKOS_MEMORY_EXTRACTION_ENABLED",
            "requires PKOS_MEMORY_BASE_URL/PKOS_MEMORY_API_KEY or the OpenAI-compatible provider variables"
        )
    );

    let thresholds = Err(invalid("PKOS_MEMORY_AUTO_PROMOTE_MIN_CONFIDENCE", "must be a finite number between 0 and 1"));
    let mut env = minimal();
    env.memory_max_candidates_per_source = s("0");
    assert_eq!(load_settings(&env, thresholds.clone()).unwrap_err(), thresholds.unwrap_err());

    let mut env = minimal();
    env.memory_max_candidates_per_source = s("33");
    assert_eq!(
        load_settings(&env, Ok(())).unwrap_err(),
        invalid("PKOS_MEMORY_MAX_CANDIDATES_PER_SOURCE", "must be between 1 and 32")
    );

    let mut env = minimal();
    env.memory_context_limit = s("0");
    assert_eq!(
        load_settings(&env, Ok(())).unwrap_err(),
        invalid("PKOS_MEMORY_CONTEXT_LIMIT", "must be between 1 and 200")
    );

    let mut env = minimal();
    env.database_max_connections = s("4294967296");
    assert_eq!(
        load_settings(&env, Ok(())).unwrap_err(),
        invalid("PKOS_DATABASE_MAX_CONNECTIONS", "number too large to fit in target type")
    );

    let mut env = minimal();
    env.worker_enabled = s("2");
    env.memory_keep_unpromoted_candidates = s("x");
    assert_eq!(load_settings(&env, Ok(())).unwrap_err(), invalid("PKOS_WORKER_ENABLED", "expected boolean"));
}

#[test]
fn booleans_accept_four_words_each() {
    for w in ["1", "true", "YES", "On"] {
        assert_eq!(parse_bool("X", &s(w), false), Ok(true));
    }
    for w in ["0", "False", "no", "OFF"] {
        assert_eq!(parse_bool("X", &s(w), true), Ok(false));
    }
    assert_eq!(parse_bool("X", &None, true), Ok(true));
    assert_eq!(parse_bool("X", &s(" true"), true), Err(invalid("X", "expected boolean")));
}

#[test]
fn errors_describe_themselves() {
    assert_eq!(ConfigError::Missing("DATABASE_URL").describe(), "missing required environment variable DATABASE_URL");
    assert_eq!(invalid("PKOS_API_KEY", "must be at least 32 bytes").describe(), "invalid PKOS_API_KEY: must be at least 32 bytes");
}
