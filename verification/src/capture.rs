//! Preparing sources for ingestion: checks on the request, the normalised
//! text of a captured conversation, its SHA-256 fingerprint and its chunks.
use vstd::prelude::*;
use vstd::string::StringExecFns;

use crate::chunking::{chunk_models, chunk_text, spec_chunk_text, Chunk};
use crate::error::{bad_request, conflict, is_bad_request, is_conflict, ServiceError};
use crate::graph::JsonShape;
use crate::outside::{hex_encode, sha256, spec_hex_lower, spec_sha256};
use crate::text::{
    append_chars, ascii_lower, byte_len, chars_equal_str, chars_of, str_equal, lemma_chars_at_most_bytes, push_char,
    to_ascii_lower, trim, trimmed, trimmed_string, utf8_len,
};

verus! {

/// The largest source text accepted, in bytes (10 MiB).
pub const MAX_SOURCE_BYTES: usize = 10485760;

/// The most messages a capture may hold.
pub const MAX_CAPTURE_MESSAGES: usize = 200;

/// The target and overlap, in characters, of the chunks of an ingested source.
pub const CHUNK_TARGET_CHARS: usize = 1400;

/// See `CHUNK_TARGET_CHARS`.
pub const CHUNK_OVERLAP_CHARS: usize = 180;

/// A source ready to be stored: its trimmed kind and content, the
/// lower-case hexadecimal SHA-256 of the content's UTF-8 bytes, and its chunks.
#[derive(Debug)]
pub struct SourceDraft {
    pub kind: String,
    pub content: String,
    pub sha256: String,
    pub chunks: Vec<Chunk>,
}

/// The draft holds `content` with its fingerprint and chunks.
pub open spec fn draft_of(d: SourceDraft, kind: Seq<char>, content: Seq<char>) -> bool {
    &&& d.kind@ == kind
    &&& d.content@ == content
    &&& d.sha256@ == spec_hex_lower(spec_sha256(vstd::utf8::encode_utf8(content)))
    &&& chunk_models(d.chunks@) == spec_chunk_text(
        content,
        CHUNK_TARGET_CHARS as int,
        CHUNK_OVERLAP_CHARS as int,
    )
}

/// The fingerprint and chunks of an accepted text.
fn finish_draft(kind: String, content: String) -> (d: SourceDraft)
    requires
        utf8_len(content@) <= MAX_SOURCE_BYTES,
    ensures
        draft_of(d, kind@, content@),
{
    proof {
        lemma_chars_at_most_bytes(content@);
    }
    let digest = sha256(content.as_str().as_bytes());
    let sha = hex_encode(digest.as_slice());
    let chunks = chunk_text(content.as_str(), CHUNK_TARGET_CHARS, CHUNK_OVERLAP_CHARS);
    SourceDraft { kind, content, sha256: sha, chunks }
}

/// The view of an optional text.
pub open spec fn opt_view(s: Option<&str>) -> Option<Seq<char>> {
    match s {
        Some(t) => Some(t@),
        None => None,
    }
}

/// The text is present and longer than `max` bytes.
pub open spec fn longer_than(s: Option<Seq<char>>, max: nat) -> bool {
    s matches Some(t) && utf8_len(t) > max
}

fn is_longer_than(s: Option<&str>, max: usize) -> (b: bool)
    ensures
        b == longer_than(opt_view(s), max as nat),
{
    match s {
        Some(t) => byte_len(t) > max,
        None => false,
    }
}

/// The outcome of checking a source request: its trimmed kind and content,
/// or the message of the first failed check.
pub open spec fn spec_check_source(kind: Seq<char>, content: Seq<char>, external_id: Option<
    Seq<char>,
>) -> Result<(Seq<char>, Seq<char>), Seq<char>> {
    let k = trim(kind);
    let c = trim(content);
    if k.len() == 0 || utf8_len(k) > 64 {
        Err("kind must be 1..=64 bytes"@)
    } else if c.len() == 0 {
        Err("content must not be empty"@)
    } else if utf8_len(c) > MAX_SOURCE_BYTES {
        Err("content exceeds 10 MiB API limit"@)
    } else if longer_than(external_id, 512) {
        Err("external_id is too long"@)
    } else {
        Ok((k, c))
    }
}

/// Checks a request to ingest a source and prepares it: the kind (trimmed,
/// 1 to 64 bytes), the content (trimmed, non-empty, at most 10 MiB), and the
/// external id (at most 512 bytes).
pub fn prepare_source(kind: &str, content: &str, external_id: Option<&str>) -> (r: Result<
    SourceDraft,
    ServiceError,
>)
    ensures
        match spec_check_source(kind@, content@, opt_view(external_id)) {
            Ok((k, c)) => r matches Ok(d) && draft_of(d, k, c),
            Err(m) => r matches Err(e) && is_bad_request(e, m),
        },
{
    let k = trimmed_string(kind);
    if byte_len(k.as_str()) == 0 || byte_len(k.as_str()) > 64 {
        return Err(bad_request("kind must be 1..=64 bytes"));
    }
    let c = trimmed_string(content);
    if byte_len(c.as_str()) == 0 {
        return Err(bad_request("content must not be empty"));
    }
    if byte_len(c.as_str()) > MAX_SOURCE_BYTES {
        return Err(bad_request("content exceeds 10 MiB API limit"));
    }
    if is_longer_than(external_id, 512) {
        return Err(bad_request("external_id is too long"));
    }
    Ok(finish_draft(k, c))
}

/// One message of a captured conversation.
#[derive(Debug, Clone)]
pub struct CaptureMessage {
    pub role: String,
    pub content: String,
    pub name: Option<String>,
}

/// The roles a captured message may have (after trimming and ASCII lower-casing).
pub open spec fn allowed_role(r: Seq<char>) -> bool {
    r == "user"@ || r == "assistant"@ || r == "system"@ || r == "tool"@ || r == "agent"@
}

/// The heading and body of a rendered message.
pub open spec fn render_message(role: Seq<char>, name: Option<Seq<char>>, body: Seq<char>) -> Seq<
    char,
> {
    "## "@ + role + match name {
        Some(n) => " ("@ + trim(n) + ")"@,
        None => seq![],
    } + "\n"@ + body + "\n\n"@
}

/// The view of an optional string.
pub open spec fn opt_string_view(s: Option<String>) -> Option<Seq<char>> {
    match s {
        Some(t) => Some(t@),
        None => None,
    }
}

/// The text so far after rendering one more message, or the message of the
/// check it fails.
pub open spec fn render_step(before: Seq<char>, m: CaptureMessage) -> Result<Seq<char>, Seq<char>> {
    let role = ascii_lower(trim(m.role@));
    let body = trim(m.content@);
    if !allowed_role(role) {
        Err("unsupported capture role: "@ + m.role@)
    } else if body.len() == 0 {
        Ok(before)
    } else if longer_than(opt_string_view(m.name), 128) {
        Err("message name is too long"@)
    } else {
        let next = before + render_message(role, opt_string_view(m.name), body);
        if utf8_len(next) > MAX_SOURCE_BYTES {
            Err("captured conversation exceeds 10 MiB API limit"@)
        } else {
            Ok(next)
        }
    }
}

/// The rendered text of the messages, each non-blank one as a Markdown
/// heading naming its role followed by its trimmed body.
pub open spec fn render_messages(msgs: Seq<CaptureMessage>) -> Result<Seq<char>, Seq<char>>
    decreases msgs.len(),
{
    if msgs.len() == 0 {
        Ok(seq![])
    } else {
        match render_messages(msgs.drop_last()) {
            Ok(before) => render_step(before, msgs.last()),
            Err(m) => Err(m),
        }
    }
}

/// Law: every one of the five roles `user`, `assistant`, `system`, `tool`
/// and `agent` (in any ASCII case, with surrounding whitespace) passes the
/// role check.  A blank message with such a role adds nothing; a non-blank
/// unnamed one adds its heading and trimmed body when the text still fits;
/// and such a message is never refused for its role.
pub proof fn capture_role_law(before: Seq<char>, m: CaptureMessage)
    requires
        ({
            let r = ascii_lower(trim(m.role@));
            ||| r == "user"@
            ||| r == "assistant"@
            ||| r == "system"@
            ||| r == "tool"@
            ||| r == "agent"@
        }),
    ensures
        trim(m.content@).len() == 0 ==> render_step(before, m) == Ok::<Seq<char>, Seq<char>>(before),
        ({
            let next = before + "## "@ + ascii_lower(trim(m.role@)) + "\n"@ + trim(m.content@)
                + "\n\n"@;
            trim(m.content@).len() > 0 && m.name is None && utf8_len(next) <= MAX_SOURCE_BYTES
                ==> render_step(before, m) == Ok::<Seq<char>, Seq<char>>(next)
        }),
        render_step(before, m) != Err::<Seq<char>, Seq<char>>(
            "unsupported capture role: "@ + m.role@,
        ),
{
    let role = ascii_lower(trim(m.role@));
    let body = trim(m.content@);
    if body.len() > 0 && m.name is None {
        assert(render_message(role, None, body) =~= "## "@ + role + "\n"@ + body + "\n\n"@);
        assert(before + render_message(role, None, body) =~= before + "## "@ + role + "\n"@ + body
            + "\n\n"@);
    }
    reveal_strlit("unsupported capture role: ");
    reveal_strlit("message name is too long");
    reveal_strlit("captured conversation exceeds 10 MiB API limit");
    assert(("unsupported capture role: "@ + m.role@)[0] == 'u');
    assert("message name is too long"@[0] == 'm');
    assert("captured conversation exceeds 10 MiB API limit"@[0] == 'c');
}

/// The outcome of checking a capture: its trimmed kind and normalised
/// conversation text, or the message of the first failed check.
pub open spec fn spec_check_capture(
    kind: Seq<char>,
    messages: Seq<CaptureMessage>,
    external_id: Option<Seq<char>>,
    session_id: Option<Seq<char>>,
    provider: Option<Seq<char>>,
    metadata: JsonShape,
) -> Result<(Seq<char>, Seq<char>), Seq<char>> {
    let k = trim(kind);
    if k.len() == 0 || utf8_len(k) > 64 {
        Err("kind must be 1..=64 bytes"@)
    } else if messages.len() == 0 || messages.len() > MAX_CAPTURE_MESSAGES {
        Err("messages must contain 1..=200 items"@)
    } else if longer_than(external_id, 512) {
        Err("external_id is too long"@)
    } else if longer_than(session_id, 512) {
        Err("session_id is too long"@)
    } else if longer_than(provider, 128) {
        Err("provider is too long"@)
    } else {
        match render_messages(messages) {
            Err(m) => Err(m),
            Ok(text) => if trim(text).len() == 0 {
                Err("capture contains no non-empty messages"@)
            } else if metadata == JsonShape::Other {
                Err("metadata must be a JSON object"@)
            } else {
                Ok((k, trim(text)))
            },
        }
    }
}

fn is_allowed_role(r: &Vec<char>) -> (b: bool)
    ensures
        b == allowed_role(r@),
{
    chars_equal_str(r, "user") || chars_equal_str(r, "assistant") || chars_equal_str(r, "system")
        || chars_equal_str(r, "tool") || chars_equal_str(r, "agent")
}

/// Renders the messages of a conversation (see `render_messages`).
fn render_conversation(messages: &Vec<CaptureMessage>) -> (r: Result<String, ServiceError>)
    ensures
        match render_messages(messages@) {
            Ok(t) => r matches Ok(s) && s@ == t && utf8_len(t) <= MAX_SOURCE_BYTES,
            Err(m) => r matches Err(e) && is_bad_request(e, m),
        },
{
    let mut content = String::new();
    let n = messages.len();
    let mut i: usize = 0;
    while i < n
        invariant
            n == messages.len(),
            i <= n,
            render_messages(messages@.take(i as int)) == Ok::<Seq<char>, Seq<char>>(content@),
            utf8_len(content@) <= MAX_SOURCE_BYTES,
        decreases n - i,
    {
        let m = &messages[i];
        assert(messages@.take(i + 1).drop_last() =~= messages@.take(i as int));
        assert(messages@.take(i + 1).last() == messages@[i as int]);
        let t = trimmed(m.role.as_str());
        let tv = string_of_chars(&t);
        let role = to_ascii_lower(tv.as_str());
        if !is_allowed_role(&role) {
            let mut msg = "unsupported capture role: ".to_owned();
            msg.append(m.role.as_str());
            proof {
                lemma_render_err_stops(messages@, i as int + 1);
            }
            return Err(ServiceError::BadRequest(msg));
        }
        let body = trimmed(m.content.as_str());
        if body.len() == 0 {
            i = i + 1;
            continue;
        }
        let ghost before = content@;
        match &m.name {
            Some(nm) => {
                if byte_len(nm.as_str()) > 128 {
                    proof {
                        lemma_render_err_stops(messages@, i as int + 1);
                    }
                    return Err(bad_request("message name is too long"));
                }
                content.append("## ");
                append_chars(&mut content, &role);
                content.append(" (");
                let nt = trimmed(nm.as_str());
                append_chars(&mut content, &nt);
                content.append(")");
                content.append("\n");
            },
            None => {
                content.append("## ");
                append_chars(&mut content, &role);
                content.append("\n");
            },
        }
        append_chars(&mut content, &body);
        content.append("\n\n");
        assert(content@ =~= before + render_message(role@, opt_string_view(m.name), body@));
        if byte_len(content.as_str()) > MAX_SOURCE_BYTES {
            proof {
                lemma_render_err_stops(messages@, i as int + 1);
            }
            return Err(bad_request("captured conversation exceeds 10 MiB API limit"));
        }
        i = i + 1;
    }
    assert(messages@.take(n as int) =~= messages@);
    Ok(content)
}

/// Once rendering a prefix fails, rendering the whole list fails the same way.
proof fn lemma_render_err_stops(msgs: Seq<CaptureMessage>, k: int)
    requires
        0 <= k <= msgs.len(),
        render_messages(msgs.take(k)) is Err,
    ensures
        render_messages(msgs) == render_messages(msgs.take(k)),
    decreases msgs.len() - k,
{
    if k < msgs.len() {
        assert(msgs.take(k + 1).drop_last() =~= msgs.take(k));
        lemma_render_err_stops(msgs, k + 1);
    } else {
        assert(msgs.take(k) =~= msgs);
    }
}

fn string_of_chars(v: &Vec<char>) -> (s: String)
    ensures
        s@ == v@,
{
    let mut s = String::new();
    append_chars(&mut s, v);
    s
}

/// A conversation ready to be stored as a source.
#[derive(Debug)]
pub struct CaptureDraft {
    pub source: SourceDraft,
    pub message_count: usize,
}

/// Checks a capture request and normalises the conversation into a source
/// text: the kind (trimmed, 1 to 64 bytes), 1 to 200 messages, the lengths of
/// the external id, session id and provider, each message's role, each
/// message's name, the size of the text (at most 10 MiB), the presence of a
/// non-blank message, and the metadata (a JSON object or null).
pub fn prepare_capture(
    kind: &str,
    messages: &Vec<CaptureMessage>,
    external_id: Option<&str>,
    session_id: Option<&str>,
    provider: Option<&str>,
    metadata: JsonShape,
) -> (r: Result<CaptureDraft, ServiceError>)
    ensures
        match spec_check_capture(
            kind@,
            messages@,
            opt_view(external_id),
            opt_view(session_id),
            opt_view(provider),
            metadata,
        ) {
            Ok((k, c)) => r matches Ok(d) && draft_of(d.source, k, c) && d.message_count
                == messages.len(),
            Err(m) => r matches Err(e) && is_bad_request(e, m),
        },
{
    let k = trimmed_string(kind);
    if byte_len(k.as_str()) == 0 || byte_len(k.as_str()) > 64 {
        return Err(bad_request("kind must be 1..=64 bytes"));
    }
    if messages.len() == 0 || messages.len() > MAX_CAPTURE_MESSAGES {
        return Err(bad_request("messages must contain 1..=200 items"));
    }
    if is_longer_than(external_id, 512) {
        return Err(bad_request("external_id is too long"));
    }
    if is_longer_than(session_id, 512) {
        return Err(bad_request("session_id is too long"));
    }
    if is_longer_than(provider, 128) {
        return Err(bad_request("provider is too long"));
    }
    let text = render_conversation(messages)?;
    let content = trimmed_string(text.as_str());
    if byte_len(content.as_str()) == 0 {
        return Err(bad_request("capture contains no non-empty messages"));
    }
    if metadata == JsonShape::Other {
        return Err(bad_request("metadata must be a JSON object"));
    }
    proof {
        lemma_trim_shorter(text@);
    }
    Ok(CaptureDraft { source: finish_draft(k, content), message_count: messages.len() })
}

/// Trimming never lengthens the UTF-8 encoding of a text.
proof fn lemma_trim_shorter(s: Seq<char>)
    ensures
        utf8_len(trim(s)) <= utf8_len(s),
{
    let d = crate::text::lemma_trim_start_shape(s);
    let x = s.skip(d);
    let e = crate::text::lemma_trim_end_shape(x);
    assert(s =~= s.take(d) + x);
    assert(x =~= x.take(e) + x.skip(e));
    lemma_encode_concat(s.take(d), x);
    lemma_encode_concat(x.take(e), x.skip(e));
}

/// The UTF-8 encoding of a concatenation is the concatenation of the encodings.
proof fn lemma_encode_concat(a: Seq<char>, b: Seq<char>)
    ensures
        vstd::utf8::encode_utf8(a + b) == vstd::utf8::encode_utf8(a) + vstd::utf8::encode_utf8(b),
    decreases a.len(),
{
    if a.len() > 0 {
        assert((a + b).drop_first() =~= a.drop_first() + b);
        lemma_encode_concat(a.drop_first(), b);
        assert((a + b)[0] == a[0]);
        assert(vstd::utf8::encode_scalar(a[0] as u32) + (vstd::utf8::encode_utf8(a.drop_first())
            + vstd::utf8::encode_utf8(b)) =~= (vstd::utf8::encode_scalar(a[0] as u32)
            + vstd::utf8::encode_utf8(a.drop_first())) + vstd::utf8::encode_utf8(b));
    } else {
        assert(a + b =~= b);
        assert(vstd::utf8::encode_utf8(a) =~= seq![]);
        assert(seq![] + vstd::utf8::encode_utf8(b) =~= vstd::utf8::encode_utf8(b));
    }
}

/// The refusal of a source whose insertion broke a uniqueness constraint
/// (database error code `23505`, the external id being taken), if that is
/// what the insertion's error code says.
pub fn source_conflict(code: Option<&str>) -> (r: Option<ServiceError>)
    ensures
        match code {
            Some(c) if c@ == "23505"@ => r matches Some(e) && is_conflict(
                e,
                "source external_id already exists"@,
            ),
            _ => r is None,
        },
{
    match code {
        Some(c) => if str_equal(c, "23505") {
            Some(conflict("source external_id already exists"))
        } else {
            None
        },
        None => None,
    }
}

} // verus!
