//! Bearer-token authentication of requests.
use vstd::prelude::*;

use crate::error::ServiceError;
use crate::outside::constant_time_eq;
use crate::text::{chars_of, has_prefix, string_of_range};

verus! {

/// The token that an `Authorization` header carries after the `Bearer `
/// scheme (case-sensitive, one space), if the header is present and has it.
pub open spec fn bearer_token(header: Option<Seq<char>>) -> Option<Seq<char>> {
    match header {
        Some(h) => if h.len() >= 7 && h.take(7) == "Bearer "@ {
            Some(h.skip(7))
        } else {
            None
        },
        None => None,
    }
}

/// The request is authorised: its header carries the API key as a bearer token.
pub open spec fn authorized(header: Option<Seq<char>>, api_key: Seq<char>) -> bool {
    bearer_token(header) == Some(api_key)
}

/// The view of an optional text.
pub open spec fn header_view(header: Option<&str>) -> Option<Seq<char>> {
    match header {
        Some(h) => Some(h@),
        None => None,
    }
}

/// Checks the `Authorization` header of a request (absent when missing or not
/// visible ASCII) against the configured API key.  The token is compared with
/// the key in constant time.
pub fn authorize(header: Option<&str>, api_key: &str) -> (r: Result<(), ServiceError>)
    ensures
        authorized(header_view(header), api_key@) ==> r is Ok,
        !authorized(header_view(header), api_key@) ==> r matches Err(ServiceError::Unauthorized),
{
    let h = match header {
        Some(h) => h,
        None => return Err(ServiceError::Unauthorized),
    };
    let v = chars_of(h);
    let scheme = chars_of("Bearer ");
    proof {
        reveal_strlit("Bearer ");
    }
    if !has_prefix(&v, &scheme) {
        return Err(ServiceError::Unauthorized);
    }
    let token = string_of_range(&v, 7, v.len());
    let expected = api_key.as_bytes();
    let actual = token.as_str().as_bytes();
    let matches = expected.len() == actual.len() && constant_time_eq(expected, actual);
    proof {
        lemma_encoding_injective(api_key@, token@);
    }
    if !matches {
        return Err(ServiceError::Unauthorized);
    }
    Ok(())
}

/// Two texts with the same UTF-8 bytes are the same text.
proof fn lemma_encoding_injective(a: Seq<char>, b: Seq<char>)
    ensures
        vstd::utf8::encode_utf8(a) == vstd::utf8::encode_utf8(b) <==> a == b,
{
    vstd::utf8::encode_utf8_decode_utf8(a);
    vstd::utf8::encode_utf8_decode_utf8(b);
}

/// Law: a request is authorised exactly when its header is `Bearer `
/// followed by the API key.
pub proof fn authorization_law(header: Option<Seq<char>>, api_key: Seq<char>)
    ensures
        authorized(header, api_key) <==> header == Some("Bearer "@ + api_key),
{
    reveal_strlit("Bearer ");
    if let Some(h) = header {
        if authorized(header, api_key) {
            assert(h =~= "Bearer "@ + api_key);
        }
        if h == "Bearer "@ + api_key {
            assert(h.take(7) =~= "Bearer "@);
            assert(h.skip(7) =~= api_key);
        }
    }
}

} // verus!
