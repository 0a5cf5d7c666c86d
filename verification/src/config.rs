//! The service's settings, read and checked from its environment variables.
//!
//! The listening address and the two promotion thresholds (floating-point
//! numbers) are read by the program itself; everything else is read here.
use vstd::prelude::*;
use vstd::string::StringExecFns;

use crate::outside::{parse_uuid, spec_parse_uuid};
use crate::text::{ascii_lower, byte_len, chars_equal_str, owned, to_ascii_lower, trim, trimmed, utf8_len};

verus! {

/// A setting that is missing or invalid.
#[derive(Debug, Clone, PartialEq, Eq)]
pub enum ConfigError {
    /// A required variable is unset or blank.
    Missing(&'static str),
    /// A variable holds a value the service cannot use.
    Invalid { name: &'static str, message: String },
}

impl ConfigError {
    /// The error's message: `missing required environment variable NAME` or
    /// `invalid NAME: MESSAGE`.
    pub fn describe(&self) -> (s: String)
        ensures
            s@ == match self {
                ConfigError::Missing(name) => "missing required environment variable "@ + name@,
                ConfigError::Invalid { name, message } => "invalid "@ + name@ + ": "@ + message@,
            },
    {
        match self {
            ConfigError::Missing(name) => {
                let mut s = owned("missing required environment variable ");
                s.append(name);
                s
            },
            ConfigError::Invalid { name, message } => {
                let mut s = owned("invalid ");
                s.append(name);
                s.append(": ");
                s.append(message.as_str());
                s
            },
        }
    }
}

/// The raw values of the environment variables that the service reads, each
/// absent when the variable is unset or not valid Unicode.
#[derive(Debug, Clone)]
pub struct EnvVars {
    pub database_url: Option<String>,
    pub owner_id: Option<String>,
    pub api_key: Option<String>,
    pub embedding_dimensions: Option<String>,
    pub openai_base_url: Option<String>,
    pub openai_api_key: Option<String>,
    pub memory_base_url: Option<String>,
    pub memory_api_key: Option<String>,
    pub memory_extraction_enabled: Option<String>,
    pub memory_max_candidates_per_source: Option<String>,
    pub memory_context_limit: Option<String>,
    pub database_max_connections: Option<String>,
    pub lexical_backend: Option<String>,
    pub search_candidate_limit: Option<String>,
    pub search_result_limit: Option<String>,
    pub worker_poll_ms: Option<String>,
    pub worker_batch_size: Option<String>,
    pub worker_enabled: Option<String>,
    pub embedding_model: Option<String>,
    pub memory_model: Option<String>,
    pub memory_auto_promote_enabled: Option<String>,
    pub memory_keep_unpromoted_candidates: Option<String>,
}

/// The checked settings (all but the listening address and the promotion
/// thresholds).
#[derive(Debug, Clone)]
pub struct Settings {
    pub database_url: String,
    pub owner_id: u128,
    pub api_key: String,
    pub database_max_connections: u32,
    pub lexical_backend: String,
    pub search_candidate_limit: usize,
    pub search_result_limit: usize,
    pub worker_poll_ms: u64,
    pub worker_batch_size: i64,
    pub worker_enabled: bool,
    pub openai_base_url: Option<String>,
    pub openai_api_key: Option<String>,
    pub embedding_model: String,
    pub embedding_dimensions: usize,
    pub memory_base_url: Option<String>,
    pub memory_api_key: Option<String>,
    pub memory_model: String,
    pub memory_extraction_enabled: bool,
    pub memory_auto_promote_enabled: bool,
    pub memory_keep_unpromoted_candidates: bool,
    pub memory_max_candidates_per_source: usize,
    pub memory_context_limit: i64,
}

/// The only embedding width that the storage schema holds.
pub const EMBEDDING_DIMENSIONS: usize = 1536;

// ---------------------------------------------------------------------------
// Decimal integers
// ---------------------------------------------------------------------------

/// The value of a run of ASCII digits.
pub open spec fn digits_value(s: Seq<char>) -> int
    decreases s.len(),
{
    if s.len() == 0 {
        0
    } else {
        10 * digits_value(s.drop_last()) + (s.last() as int - '0' as int)
    }
}

/// The value of a non-empty run of ASCII digits.
pub open spec fn digits_of(s: Seq<char>) -> Option<int> {
    if s.len() > 0 && (forall|i: int| 0 <= i < s.len() ==> '0' <= #[trigger] s[i] && s[i] <= '9') {
        Some(digits_value(s))
    } else {
        None
    }
}

/// The integer that a decimal text denotes as `str::parse` reads it: an
/// optional `+` (or, where negative numbers are read, `-`), then one or more
/// ASCII digits, and nothing else.
pub open spec fn decimal_integer(s: Seq<char>, signed: bool) -> Option<int> {
    if s.len() > 0 && s[0] == '+' {
        digits_of(s.drop_first())
    } else if signed && s.len() > 0 && s[0] == '-' {
        match digits_of(s.drop_first()) {
            Some(v) => Some(-v),
            None => None,
        }
    } else {
        digits_of(s)
    }
}

/// The integer a text denotes, if it lies in `[lo, hi]`.
pub open spec fn decimal_in(s: Seq<char>, signed: bool, lo: int, hi: int) -> Option<int> {
    match decimal_integer(s, signed) {
        Some(v) => if lo <= v && v <= hi {
            Some(v)
        } else {
            None
        },
        None => None,
    }
}

/// `str::parse::<u32>`.  The contract claims what the documentation of
/// `u32::from_str` gives (an optional `+` and then only digits, within the
/// type's range); on failure the error's `Display` text is passed on, of
/// which nothing is claimed.
#[verifier::external_body]
fn parse_u32(s: &str) -> (r: Result<u32, String>)
    ensures
        match r {
            Ok(v) => decimal_in(s@, false, 0, u32::MAX as int) == Some(v as int),
            Err(_) => decimal_in(s@, false, 0, u32::MAX as int) is None,
        },
{
    match s.parse::<u32>() {
        Ok(v) => Ok(v),
        Err(e) => Err(e.to_string()),
    }
}

/// `str::parse::<usize>`: as `parse_u32`, within `usize`'s range.
#[verifier::external_body]
fn parse_usize(s: &str) -> (r: Result<usize, String>)
    ensures
        match r {
            Ok(v) => decimal_in(s@, false, 0, usize::MAX as int) == Some(v as int),
            Err(_) => decimal_in(s@, false, 0, usize::MAX as int) is None,
        },
{
    match s.parse::<usize>() {
        Ok(v) => Ok(v),
        Err(e) => Err(e.to_string()),
    }
}

/// `str::parse::<u64>`: as `parse_u32`, within `u64`'s range.
#[verifier::external_body]
fn parse_u64(s: &str) -> (r: Result<u64, String>)
    ensures
        match r {
            Ok(v) => decimal_in(s@, false, 0, u64::MAX as int) == Some(v as int),
            Err(_) => decimal_in(s@, false, 0, u64::MAX as int) is None,
        },
{
    match s.parse::<u64>() {
        Ok(v) => Ok(v),
        Err(e) => Err(e.to_string()),
    }
}

/// `str::parse::<i64>`.  The contract claims what the documentation of
/// `i64::from_str` gives (an optional `+` or `-` and then only digits, within
/// the type's range); on failure the error's `Display` text is passed on, of
/// which nothing is claimed.
#[verifier::external_body]
fn parse_i64(s: &str) -> (r: Result<i64, String>)
    ensures
        match r {
            Ok(v) => decimal_in(s@, true, i64::MIN as int, i64::MAX as int) == Some(v as int),
            Err(_) => decimal_in(s@, true, i64::MIN as int, i64::MAX as int) is None,
        },
{
    match s.parse::<i64>() {
        Ok(v) => Ok(v),
        Err(e) => Err(e.to_string()),
    }
}

// ---------------------------------------------------------------------------
// Reading one variable
// ---------------------------------------------------------------------------

/// The view of an optional string.
pub open spec fn raw(v: Option<String>) -> Option<Seq<char>> {
    match v {
        Some(s) => Some(s@),
        None => None,
    }
}

/// The text of a variable, or its default when it is unset.
pub open spec fn text_or(v: Option<Seq<char>>, default: Seq<char>) -> Seq<char> {
    match v {
        Some(s) => s,
        None => default,
    }
}

/// The value of a variable that must be set and not blank (kept as it is,
/// untrimmed).
pub open spec fn nonblank(v: Option<Seq<char>>) -> Option<Seq<char>> {
    match v {
        Some(s) => if trim(s).len() > 0 {
            Some(s)
        } else {
            None
        },
        None => None,
    }
}

/// The value of a boolean variable: its default when unset, else one of the
/// words `1`, `true`, `yes`, `on` or `0`, `false`, `no`, `off` in any ASCII case.
pub open spec fn boolean_setting(v: Option<Seq<char>>, default: bool) -> Option<bool> {
    match v {
        None => Some(default),
        Some(s) => {
            let l = ascii_lower(s);
            if l == "1"@ || l == "true"@ || l == "yes"@ || l == "on"@ {
                Some(true)
            } else if l == "0"@ || l == "false"@ || l == "no"@ || l == "off"@ {
                Some(false)
            } else {
                None
            }
        },
    }
}

/// A setting that failed, as the checks describe it.
pub enum Fault {
    /// The named variable must be set.
    Missing(Seq<char>),
    /// The named variable is invalid, with this message.
    Invalid(Seq<char>, Seq<char>),
    /// The named variable does not parse; the message is the parser's.
    Unparsable(Seq<char>),
    /// A check made by the caller failed with this error.
    Given(ConfigError),
}

/// The error reports the fault.
pub open spec fn reports(e: ConfigError, f: Fault) -> bool {
    match f {
        Fault::Missing(n) => e matches ConfigError::Missing(m) && m@ == n,
        Fault::Invalid(n, msg) => e matches ConfigError::Invalid { name, message } && name@ == n
            && message@ == msg,
        Fault::Unparsable(n) => e matches ConfigError::Invalid { name, .. } && name@ == n,
        Fault::Given(g) => e == g,
    }
}

fn text_or_default(v: &Option<String>, default: &str) -> (r: String)
    ensures
        r@ == text_or(raw(*v), default@),
{
    match v {
        Some(s) => owned(s.as_str()),
        None => owned(default),
    }
}

/// Reads a variable that must be set and not blank.
pub fn required(name: &'static str, v: &Option<String>) -> (r: Result<String, ConfigError>)
    ensures
        match nonblank(raw(*v)) {
            Some(s) => r matches Ok(t) && t@ == s,
            None => r matches Err(e) && reports(e, Fault::Missing(name@)),
        },
{
    match optional(v) {
        Some(s) => Ok(s),
        None => Err(ConfigError::Missing(name)),
    }
}

/// Reads a variable that may be unset; a blank value counts as unset.
pub fn optional(v: &Option<String>) -> (r: Option<String>)
    ensures
        raw(r) == nonblank(raw(*v)),
{
    match v {
        Some(s) => {
            let t = trimmed(s.as_str());
            if t.len() > 0 {
                Some(owned(s.as_str()))
            } else {
                None
            }
        },
        None => None,
    }
}

/// Reads a boolean variable (see `boolean_setting`).
pub fn parse_bool(name: &'static str, v: &Option<String>, default: bool) -> (r: Result<
    bool,
    ConfigError,
>)
    ensures
        match boolean_setting(raw(*v), default) {
            Some(b) => r == Ok::<bool, ConfigError>(b),
            None => r matches Err(e) && reports(e, Fault::Invalid(name@, "expected boolean"@)),
        },
{
    match v {
        None => Ok(default),
        Some(s) => {
            let l = to_ascii_lower(s.as_str());
            if chars_equal_str(&l, "1") || chars_equal_str(&l, "true") || chars_equal_str(&l, "yes")
                || chars_equal_str(&l, "on") {
                Ok(true)
            } else if chars_equal_str(&l, "0") || chars_equal_str(&l, "false") || chars_equal_str(
                &l,
                "no",
            ) || chars_equal_str(&l, "off") {
                Ok(false)
            } else {
                Err(ConfigError::Invalid { name, message: owned("expected boolean") })
            }
        },
    }
}

fn setting_u32(name: &'static str, v: &Option<String>, default: &str) -> (r: Result<u32, ConfigError>)
    ensures
        match decimal_in(text_or(raw(*v), default@), false, 0, u32::MAX as int) {
            Some(n) => r matches Ok(m) && m as int == n,
            None => r matches Err(e) && reports(e, Fault::Unparsable(name@)),
        },
{
    let t = text_or_default(v, default);
    match parse_u32(t.as_str()) {
        Ok(n) => Ok(n),
        Err(message) => Err(ConfigError::Invalid { name, message }),
    }
}

fn setting_usize(name: &'static str, v: &Option<String>, default: &str) -> (r: Result<
    usize,
    ConfigError,
>)
    ensures
        match decimal_in(text_or(raw(*v), default@), false, 0, usize::MAX as int) {
            Some(n) => r matches Ok(m) && m as int == n,
            None => r matches Err(e) && reports(e, Fault::Unparsable(name@)),
        },
{
    let t = text_or_default(v, default);
    match parse_usize(t.as_str()) {
        Ok(n) => Ok(n),
        Err(message) => Err(ConfigError::Invalid { name, message }),
    }
}

fn setting_u64(name: &'static str, v: &Option<String>, default: &str) -> (r: Result<u64, ConfigError>)
    ensures
        match decimal_in(text_or(raw(*v), default@), false, 0, u64::MAX as int) {
            Some(n) => r matches Ok(m) && m as int == n,
            None => r matches Err(e) && reports(e, Fault::Unparsable(name@)),
        },
{
    let t = text_or_default(v, default);
    match parse_u64(t.as_str()) {
        Ok(n) => Ok(n),
        Err(message) => Err(ConfigError::Invalid { name, message }),
    }
}

fn setting_i64(name: &'static str, v: &Option<String>, default: &str) -> (r: Result<i64, ConfigError>)
    ensures
        match decimal_in(text_or(raw(*v), default@), true, i64::MIN as int, i64::MAX as int) {
            Some(n) => r matches Ok(m) && m as int == n,
            None => r matches Err(e) && reports(e, Fault::Unparsable(name@)),
        },
{
    let t = text_or_default(v, default);
    match parse_i64(t.as_str()) {
        Ok(n) => Ok(n),
        Err(message) => Err(ConfigError::Invalid { name, message }),
    }
}

// ---------------------------------------------------------------------------
// All the settings
// ---------------------------------------------------------------------------

/// The owner id used when none is configured.
pub open spec fn default_owner_id() -> Seq<char> {
    "00000000-0000-0000-0000-000000000001"@
}

/// The first check of the settings that fails, in the order the service
/// makes them, or none.  `thresholds` is the outcome of the caller's own
/// check of the promotion thresholds, which comes after the provider check.
pub open spec fn first_fault(env: EnvVars, thresholds: Result<(), ConfigError>) -> Option<Fault> {
    let dims = decimal_in(
        text_or(raw(env.embedding_dimensions), "1536"@),
        false,
        0,
        usize::MAX as int,
    );
    let extraction = boolean_setting(raw(env.memory_extraction_enabled), false);
    let memory_base = match nonblank(raw(env.memory_base_url)) {
        Some(u) => Some(u),
        None => nonblank(raw(env.openai_base_url)),
    };
    let memory_key = match nonblank(raw(env.memory_api_key)) {
        Some(k) => Some(k),
        None => nonblank(raw(env.openai_api_key)),
    };
    let max_candidates = decimal_in(
        text_or(raw(env.memory_max_candidates_per_source), "8"@),
        false,
        0,
        usize::MAX as int,
    );
    let context_limit = decimal_in(
        text_or(raw(env.memory_context_limit), "50"@),
        true,
        i64::MIN as int,
        i64::MAX as int,
    );
    if nonblank(raw(env.database_url)) is None {
        Some(Fault::Missing("DATABASE_URL"@))
    } else if spec_parse_uuid(text_or(raw(env.owner_id), default_owner_id())) is None {
        Some(Fault::Unparsable("PKOS_OWNER_ID"@))
    } else if nonblank(raw(env.api_key)) is None {
        Some(Fault::Missing("PKOS_API_KEY"@))
    } else if utf8_len(raw(env.api_key)->0) < 32 {
        Some(Fault::Invalid("PKOS_API_KEY"@, "must be at least 32 bytes"@))
    } else if dims is None {
        Some(Fault::Unparsable("PKOS_EMBEDDING_DIMENSIONS"@))
    } else if dims != Some(EMBEDDING_DIMENSIONS as int) {
        Some(Fault::Invalid("PKOS_EMBEDDING_DIMENSIONS"@, "v1 schema is fixed to 1536 dimensions"@))
    } else if extraction is None {
        Some(Fault::Invalid("PKOS_MEMORY_EXTRACTION_ENABLED"@, "expected boolean"@))
    } else if extraction == Some(true) && (memory_base is None || memory_key is None) {
        Some(
            Fault::Invalid(
                "PKOS_MEMORY_EXTRACTION_ENABLED"@,
                "requires PKOS_MEMORY_BASE_URL/PKOS_MEMORY_API_KEY or the OpenAI-compatible provider variables"@,
            ),
        )
    } else if thresholds is Err {
        Some(Fault::Given(thresholds->Err_0))
    } else if max_candidates is None {
        Some(Fault::Unparsable("PKOS_MEMORY_MAX_CANDIDATES_PER_SOURCE"@))
    } else if !(1 <= max_candidates->0 <= 32) {
        Some(Fault::Invalid("PKOS_MEMORY_MAX_CANDIDATES_PER_SOURCE"@, "must be between 1 and 32"@))
    } else if context_limit is None {
        Some(Fault::Unparsable("PKOS_MEMORY_CONTEXT_LIMIT"@))
    } else if !(1 <= context_limit->0 <= 200) {
        Some(Fault::Invalid("PKOS_MEMORY_CONTEXT_LIMIT"@, "must be between 1 and 200"@))
    } else {
        later_fault(env)
    }
}

/// The first failing check among the settings read last, in order.
pub open spec fn later_fault(env: EnvVars) -> Option<Fault> {
    if decimal_in(text_or(raw(env.database_max_connections), "20"@), false, 0, u32::MAX as int) is None {
        Some(Fault::Unparsable("PKOS_DATABASE_MAX_CONNECTIONS"@))
    } else if decimal_in(text_or(raw(env.search_candidate_limit), "40"@), false, 0, usize::MAX as int) is None {
        Some(Fault::Unparsable("PKOS_SEARCH_CANDIDATE_LIMIT"@))
    } else if decimal_in(text_or(raw(env.search_result_limit), "12"@), false, 0, usize::MAX as int) is None {
        Some(Fault::Unparsable("PKOS_SEARCH_RESULT_LIMIT"@))
    } else if decimal_in(text_or(raw(env.worker_poll_ms), "1000"@), false, 0, u64::MAX as int) is None {
        Some(Fault::Unparsable("PKOS_WORKER_POLL_MS"@))
    } else if decimal_in(
        text_or(raw(env.worker_batch_size), "8"@),
        true,
        i64::MIN as int,
        i64::MAX as int,
    ) is None {
        Some(Fault::Unparsable("PKOS_WORKER_BATCH_SIZE"@))
    } else if boolean_setting(raw(env.worker_enabled), true) is None {
        Some(Fault::Invalid("PKOS_WORKER_ENABLED"@, "expected boolean"@))
    } else if boolean_setting(raw(env.memory_auto_promote_enabled), true) is None {
        Some(Fault::Invalid("PKOS_MEMORY_AUTO_PROMOTE_ENABLED"@, "expected boolean"@))
    } else if boolean_setting(raw(env.memory_keep_unpromoted_candidates), false) is None {
        Some(Fault::Invalid("PKOS_MEMORY_KEEP_UNPROMOTED_CANDIDATES"@, "expected boolean"@))
    } else {
        None
    }
}

/// The settings hold what the variables say, with their defaults.
pub open spec fn settings_from(env: EnvVars, s: Settings) -> bool {
    &&& nonblank(raw(env.database_url)) == Some(s.database_url@)
    &&& spec_parse_uuid(text_or(raw(env.owner_id), default_owner_id())) == Some(s.owner_id)
    &&& nonblank(raw(env.api_key)) == Some(s.api_key@)
    &&& decimal_in(text_or(raw(env.database_max_connections), "20"@), false, 0, u32::MAX as int)
        == Some(s.database_max_connections as int)
    &&& s.lexical_backend@ == text_or(raw(env.lexical_backend), "pgroonga"@)
    &&& decimal_in(text_or(raw(env.search_candidate_limit), "40"@), false, 0, usize::MAX as int)
        == Some(s.search_candidate_limit as int)
    &&& decimal_in(text_or(raw(env.search_result_limit), "12"@), false, 0, usize::MAX as int)
        == Some(s.search_result_limit as int)
    &&& decimal_in(text_or(raw(env.worker_poll_ms), "1000"@), false, 0, u64::MAX as int) == Some(
        s.worker_poll_ms as int,
    )
    &&& decimal_in(text_or(raw(env.worker_batch_size), "8"@), true, i64::MIN as int, i64::MAX as int)
        == Some(s.worker_batch_size as int)
    &&& boolean_setting(raw(env.worker_enabled), true) == Some(s.worker_enabled)
    &&& raw(s.openai_base_url) == nonblank(raw(env.openai_base_url))
    &&& raw(s.openai_api_key) == nonblank(raw(env.openai_api_key))
    &&& s.embedding_model@ == text_or(raw(env.embedding_model), "text-embedding-3-small"@)
    &&& s.embedding_dimensions == EMBEDDING_DIMENSIONS
    &&& raw(s.memory_base_url) == match nonblank(raw(env.memory_base_url)) {
        Some(u) => Some(u),
        None => nonblank(raw(env.openai_base_url)),
    }
    &&& raw(s.memory_api_key) == match nonblank(raw(env.memory_api_key)) {
        Some(k) => Some(k),
        None => nonblank(raw(env.openai_api_key)),
    }
    &&& s.memory_model@ == text_or(raw(env.memory_model), "gpt-5-mini"@)
    &&& boolean_setting(raw(env.memory_extraction_enabled), false) == Some(
        s.memory_extraction_enabled,
    )
    &&& boolean_setting(raw(env.memory_auto_promote_enabled), true) == Some(
        s.memory_auto_promote_enabled,
    )
    &&& boolean_setting(raw(env.memory_keep_unpromoted_candidates), false) == Some(
        s.memory_keep_unpromoted_candidates,
    )
    &&& decimal_in(
        text_or(raw(env.memory_max_candidates_per_source), "8"@),
        false,
        0,
        usize::MAX as int,
    ) == Some(s.memory_max_candidates_per_source as int)
    &&& 1 <= s.memory_max_candidates_per_source <= 32
    &&& decimal_in(
        text_or(raw(env.memory_context_limit), "50"@),
        true,
        i64::MIN as int,
        i64::MAX as int,
    ) == Some(s.memory_context_limit as int)
    &&& 1 <= s.memory_context_limit <= 200
}

/// Reads and checks the settings from the environment, in order: the
/// database URL, the owner id, the API key (set, at least 32 bytes), the
/// embedding width (1536), the memory provider (falling back to the
/// OpenAI-compatible provider; required when extraction is enabled), the
/// caller's check of the promotion thresholds, the per-source candidate limit
/// (1 to 32), the memory context limit (1 to 200), and the remaining numbers
/// and switches.  Gives the first failing check's error.
pub fn load_settings(env: &EnvVars, thresholds: Result<(), ConfigError>) -> (r: Result<
    Settings,
    ConfigError,
>)
    ensures
        match first_fault(*env, thresholds) {
            Some(f) => r matches Err(e) && reports(e, f),
            None => r matches Ok(s) && settings_from(*env, s),
        },
{
    let database_url = required("DATABASE_URL", &env.database_url)?;
    let owner_text = text_or_default(&env.owner_id, "00000000-0000-0000-0000-000000000001");
    let owner_id = match parse_uuid(owner_text.as_str()) {
        Ok(id) => id,
        Err(message) => return Err(ConfigError::Invalid { name: "PKOS_OWNER_ID", message }),
    };
    let api_key = required("PKOS_API_KEY", &env.api_key)?;
    if byte_len(api_key.as_str()) < 32 {
        return Err(
            ConfigError::Invalid { name: "PKOS_API_KEY", message: owned("must be at least 32 bytes") },
        );
    }
    let embedding_dimensions = setting_usize(
        "PKOS_EMBEDDING_DIMENSIONS",
        &env.embedding_dimensions,
        "1536",
    )?;
    if embedding_dimensions != EMBEDDING_DIMENSIONS {
        return Err(
            ConfigError::Invalid {
                name: "PKOS_EMBEDDING_DIMENSIONS",
                message: owned("v1 schema is fixed to 1536 dimensions"),
            },
        );
    }
    let openai_base_url = optional(&env.openai_base_url);
    let openai_api_key = optional(&env.openai_api_key);
    let memory_base_url = match optional(&env.memory_base_url) {
        Some(u) => Some(u),
        None => optional(&env.openai_base_url),
    };
    let memory_api_key = match optional(&env.memory_api_key) {
        Some(k) => Some(k),
        None => optional(&env.openai_api_key),
    };
    let memory_extraction_enabled = parse_bool(
        "PKOS_MEMORY_EXTRACTION_ENABLED",
        &env.memory_extraction_enabled,
        false,
    )?;
    if memory_extraction_enabled && (memory_base_url.is_none() || memory_api_key.is_none()) {
        return Err(
            ConfigError::Invalid {
                name: "PKOS_MEMORY_EXTRACTION_ENABLED",
                message: owned(
                    "requires PKOS_MEMORY_BASE_URL/PKOS_MEMORY_API_KEY or the OpenAI-compatible provider variables",
                ),
            },
        );
    }
    match thresholds {
        Ok(()) => {},
        Err(e) => return Err(e),
    }
    let memory_max_candidates_per_source = setting_usize(
        "PKOS_MEMORY_MAX_CANDIDATES_PER_SOURCE",
        &env.memory_max_candidates_per_source,
        "8",
    )?;
    if !(1 <= memory_max_candidates_per_source && memory_max_candidates_per_source <= 32) {
        return Err(
            ConfigError::Invalid {
                name: "PKOS_MEMORY_MAX_CANDIDATES_PER_SOURCE",
                message: owned("must be between 1 and 32"),
            },
        );
    }
    let memory_context_limit = setting_i64(
        "PKOS_MEMORY_CONTEXT_LIMIT",
        &env.memory_context_limit,
        "50",
    )?;
    if !(1 <= memory_context_limit && memory_context_limit <= 200) {
        return Err(
            ConfigError::Invalid {
                name: "PKOS_MEMORY_CONTEXT_LIMIT",
                message: owned("must be between 1 and 200"),
            },
        );
    }
    let database_max_connections = setting_u32(
        "PKOS_DATABASE_MAX_CONNECTIONS",
        &env.database_max_connections,
        "20",
    )?;
    let lexical_backend = text_or_default(&env.lexical_backend, "pgroonga");
    let search_candidate_limit = setting_usize(
        "PKOS_SEARCH_CANDIDATE_LIMIT",
        &env.search_candidate_limit,
        "40",
    )?;
    let search_result_limit = setting_usize(
        "PKOS_SEARCH_RESULT_LIMIT",
        &env.search_result_limit,
        "12",
    )?;
    let worker_poll_ms = setting_u64("PKOS_WORKER_POLL_MS", &env.worker_poll_ms, "1000")?;
    let worker_batch_size = setting_i64("PKOS_WORKER_BATCH_SIZE", &env.worker_batch_size, "8")?;
    let worker_enabled = parse_bool("PKOS_WORKER_ENABLED", &env.worker_enabled, true)?;
    let embedding_model = text_or_default(&env.embedding_model, "text-embedding-3-small");
    let memory_model = text_or_default(&env.memory_model, "gpt-5-mini");
    let memory_auto_promote_enabled = parse_bool(
        "PKOS_MEMORY_AUTO_PROMOTE_ENABLED",
        &env.memory_auto_promote_enabled,
        true,
    )?;
    let memory_keep_unpromoted_candidates = parse_bool(
        "PKOS_MEMORY_KEEP_UNPROMOTED_CANDIDATES",
        &env.memory_keep_unpromoted_candidates,
        false,
    )?;
    Ok(
        Settings {
            database_url,
            owner_id,
            api_key,
            database_max_connections,
            lexical_backend,
            search_candidate_limit,
            search_result_limit,
            worker_poll_ms,
            worker_batch_size,
            worker_enabled,
            openai_base_url,
            openai_api_key,
            embedding_model,
            embedding_dimensions,
            memory_base_url,
            memory_api_key,
            memory_model,
            memory_extraction_enabled,
            memory_auto_promote_enabled,
            memory_keep_unpromoted_candidates,
            memory_max_candidates_per_source,
            memory_context_limit,
        },
    )
}

} // verus!
