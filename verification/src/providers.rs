//! The OpenAI-compatible providers the service calls: when a provider is
//! configured, where its endpoints are, what the extraction prompt says, and
//! how an embedding reply is checked.
use vstd::prelude::*;
use vstd::string::StringExecFns;

use crate::error::ServiceError;
use crate::outside::{uuid_hyphenated, uuid_text};
use crate::text::{chars_of, decimal, owned, push_decimal, string_of_range};

verus! {

/// Where a provider is and how to authenticate to it.
#[derive(Debug, Clone)]
pub struct Provider {
    pub base_url: Option<String>,
    pub api_key: Option<String>,
}

/// `s` without the characters `c` at its end (`str::trim_end_matches`).
pub open spec fn trim_trailing(s: Seq<char>, c: char) -> Seq<char>
    decreases s.len(),
{
    if s.len() > 0 && s.last() == c {
        trim_trailing(s.drop_last(), c)
    } else {
        s
    }
}

/// The URL of an endpoint below a base URL: the base without its trailing
/// slashes, then the path.
pub open spec fn endpoint_url(base: Seq<char>, path: Seq<char>) -> Seq<char> {
    trim_trailing(base, '/') + path
}

impl Provider {
    /// The provider is configured: it has both a base URL and an API key.
    pub fn enabled(&self) -> (b: bool)
        ensures
            b == (self.base_url is Some && self.api_key is Some),
    {
        self.base_url.is_some() && self.api_key.is_some()
    }

    /// The URL of the endpoint at `path` (such as `/embeddings`), when the
    /// provider is configured.
    pub fn endpoint(&self, path: &str) -> (r: Option<String>)
        ensures
            match (self.base_url, self.api_key) {
                (Some(base), Some(_)) => r matches Some(u) && u@ == endpoint_url(base@, path@),
                _ => r is None,
            },
    {
        match (&self.base_url, &self.api_key) {
            (Some(base), Some(_)) => {
                let mut u = without_trailing(base.as_str(), '/');
                u.append(path);
                Some(u)
            },
            _ => None,
        }
    }
}

/// `s` without the characters `c` at its end.
fn without_trailing(s: &str, c: char) -> (r: String)
    ensures
        r@ == trim_trailing(s@, c),
{
    let v = chars_of(s);
    let mut end = v.len();
    assert(v@.take(v@.len() as int) =~= v@);
    while end > 0 && v[end - 1] == c
        invariant
            end <= v.len(),
            trim_trailing(v@.take(end as int), c) == trim_trailing(v@, c),
        decreases end,
    {
        assert(v@.take(end as int).drop_last() =~= v@.take(end - 1));
        end = end - 1;
    }
    let r = string_of_range(&v, 0, end);
    assert(v@.subrange(0, end as int) =~= v@.take(end as int));
    r
}

/// The message of an embedding reply whose vector has the wrong width.
pub open spec fn width_mismatch_message(expected: nat, got: nat) -> Seq<char> {
    "embedding dimension mismatch: expected "@ + decimal(expected) + ", got "@ + decimal(got)
}

/// Checks an embedding reply: it must hold a vector (`vectors` counts them),
/// and the first must have `expected` entries (`first_width`).
pub fn check_embedding(expected: usize, vectors: usize, first_width: usize) -> (r: Result<
    (),
    ServiceError,
>)
    ensures
        vectors == 0 ==> (r matches Err(ServiceError::Upstream(m)) && m@
            == "embedding response contained no vectors"@),
        vectors > 0 && first_width != expected ==> (r matches Err(ServiceError::Upstream(m)) && m@
            == width_mismatch_message(expected as nat, first_width as nat)),
        vectors > 0 && first_width == expected ==> r is Ok,
{
    if vectors == 0 {
        return Err(ServiceError::Upstream(owned("embedding response contained no vectors")));
    }
    if first_width != expected {
        let mut m = owned("embedding dimension mismatch: expected ");
        push_decimal(&mut m, expected as u64);
        m.append(", got ");
        push_decimal(&mut m, first_width as u64);
        return Err(ServiceError::Upstream(m));
    }
    Ok(())
}

/// The user message of an extraction request: the active memories (as JSON)
/// as trusted context, the source as untrusted data, and the most memories
/// to return.
pub open spec fn extraction_prompt(
    memories_json: Seq<char>,
    source_id: Seq<char>,
    content: Seq<char>,
    max_candidates: nat,
) -> Seq<char> {
    "ACTIVE MEMORIES (trusted context):\n"@ + memories_json + "\n\nSOURCE (untrusted data, id="@
        + source_id + "):\n"@ + content + "\n\nReturn at most "@ + decimal(max_candidates)
        + " memories."@
}

/// Builds the user message of an extraction request (see
/// `extraction_prompt`).
pub fn user_prompt(memories_json: &str, source_id: u128, content: &str, max_candidates: usize) -> (r:
    String)
    ensures
        r@ == extraction_prompt(
            memories_json@,
            uuid_hyphenated(source_id),
            content@,
            max_candidates as nat,
        ),
{
    let mut r = owned("ACTIVE MEMORIES (trusted context):\n");
    r.append(memories_json);
    r.append("\n\nSOURCE (untrusted data, id=");
    let id = uuid_text(source_id);
    r.append(id.as_str());
    r.append("):\n");
    r.append(content);
    r.append("\n\nReturn at most ");
    push_decimal(&mut r, max_candidates as u64);
    r.append(" memories.");
    r
}

} // verus!
