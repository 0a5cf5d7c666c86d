//! The calls into outside crates, each behind a contract.
use sha2::Digest;
use subtle::ConstantTimeEq;
use vstd::prelude::*;

use crate::time::Timestamp;

verus! {

/// What `uuid::Uuid::parse_str` gives for a text: the UUID as a 128-bit
/// big-endian number, or nothing when the text is not a UUID.
pub uninterp spec fn spec_parse_uuid(s: Seq<char>) -> Option<u128>;

/// Parses a UUID with `uuid::Uuid::parse_str` (hyphenated, simple, braced or
/// URN form).  The contract claims only that the outcome is a function of the
/// text: the UUID's 128-bit value (`Uuid::as_u128`) on success.  On failure
/// it gives the error's `Display` text, of which it claims nothing.
#[verifier::external_body]
pub(crate) fn parse_uuid(s: &str) -> (r: Result<u128, String>)
    ensures
        match r {
            Ok(v) => spec_parse_uuid(s@) == Some(v),
            Err(_) => spec_parse_uuid(s@) is None,
        },
{
    match uuid::Uuid::parse_str(s) {
        Ok(u) => Ok(u.as_u128()),
        Err(e) => Err(e.to_string()),
    }
}

/// The last `n` hexadecimal digits of `v`, most significant first, in lower case.
pub open spec fn hex_digits(v: nat, n: nat) -> Seq<char>
    decreases n,
{
    if n == 0 {
        seq![]
    } else {
        hex_digits(v / 16, (n - 1) as nat).push(hex_digit((v % 16) as int))
    }
}

/// The hyphenated lower-case form of a UUID given as its 128-bit value:
/// 32 hexadecimal digits in groups of 8, 4, 4, 4 and 12.
pub open spec fn uuid_hyphenated(id: u128) -> Seq<char> {
    let h = hex_digits(id as nat, 32);
    h.subrange(0, 8) + "-"@ + h.subrange(8, 12) + "-"@ + h.subrange(12, 16) + "-"@ + h.subrange(
        16,
        20,
    ) + "-"@ + h.subrange(20, 32)
}

/// The text of a UUID by `uuid::Uuid::from_u128` and its `Display`
/// (`to_string`): the hyphenated lower-case form, the value's bytes taken
/// most significant first.
#[verifier::external_body]
pub(crate) fn uuid_text(id: u128) -> (r: String)
    ensures
        r@ == uuid_hyphenated(id),
{
    uuid::Uuid::from_u128(id).to_string()
}

/// What `chrono::DateTime::parse_from_rfc3339` gives for a text: the instant
/// as seconds since the epoch and nanoseconds past that second.
pub uninterp spec fn spec_parse_rfc3339(s: Seq<char>) -> Option<(i64, u32)>;

/// Parses an RFC 3339 date and time with
/// `chrono::DateTime::parse_from_rfc3339`.  The contract claims only that the
/// result is a function of the text; the instant is read back with
/// `timestamp()` and `timestamp_subsec_nanos()`, which do not depend on the
/// offset that the text names.
#[verifier::external_body]
pub(crate) fn parse_rfc3339(s: &str) -> (r: Option<Timestamp>)
    ensures
        match (r, spec_parse_rfc3339(s@)) {
            (Some(t), Some(p)) => t.secs == p.0 && t.nanos == p.1,
            (None, None) => true,
            _ => false,
        },
{
    chrono::DateTime::parse_from_rfc3339(s).ok().map(
        |t| Timestamp { secs: t.timestamp(), nanos: t.timestamp_subsec_nanos() },
    )
}

/// What `sha2::Sha256::digest` gives for some bytes.
pub uninterp spec fn spec_sha256(data: Seq<u8>) -> Seq<u8>;

/// The SHA-256 digest of `data`, by `sha2::Sha256::digest`.  The contract
/// claims that the result is a function of the bytes and is 32 bytes long
/// (SHA-256 has a 256-bit output); the digest itself is not restated.
#[verifier::external_body]
pub(crate) fn sha256(data: &[u8]) -> (r: Vec<u8>)
    ensures
        r@ == spec_sha256(data@),
        r@.len() == 32,
{
    sha2::Sha256::digest(data).to_vec()
}

/// The lower-case hexadecimal digit for a value below 16.
pub open spec fn hex_digit(v: int) -> char {
    if v < 10 {
        (('0' as int) + v) as char
    } else {
        (('a' as int) + v - 10) as char
    }
}

/// Lower-case hexadecimal encoding: two digits per byte, high nibble first.
pub open spec fn spec_hex_lower(data: Seq<u8>) -> Seq<char>
    decreases data.len(),
{
    if data.len() == 0 {
        seq![]
    } else {
        seq![hex_digit(data[0] as int / 16), hex_digit(data[0] as int % 16)] + spec_hex_lower(
            data.drop_first(),
        )
    }
}

/// `hex::encode`: each byte as two lower-case hexadecimal digits, high
/// nibble first (the crate's table is `0123456789abcdef`).
#[verifier::external_body]
pub(crate) fn hex_encode(data: &[u8]) -> (r: String)
    ensures
        r@ == spec_hex_lower(data@),
{
    hex::encode(data)
}

/// `subtle::ConstantTimeEq::ct_eq` on byte slices: true exactly when the two
/// slices have the same length and the same bytes.
#[verifier::external_body]
pub(crate) fn constant_time_eq(a: &[u8], b: &[u8]) -> (r: bool)
    ensures
        r == (a@ == b@),
{
    bool::from(a.ct_eq(b))
}

} // verus!
