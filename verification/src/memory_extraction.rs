//! Deterministic checks and decisions around model-proposed memories.
//!
//! A language model proposes memory candidates for a source; nothing it says
//! is trusted.  This module decides whether a candidate is grounded in the
//! source and free of secret-looking material, extracts the JSON payload from
//! the model's reply, and decides, per candidate, which state transition the
//! service performs.
use vstd::prelude::*;
use vstd::string::StringExecFns;

use crate::outside::{parse_rfc3339, parse_uuid, spec_parse_rfc3339, spec_parse_uuid};
use crate::text::{
    all_white_space, ascii_lower, chars_equal_str, chars_of, contains_chars, contains_seq,
    is_white_space, join_with, lemma_join_push, normalize_whitespace, normalize_ws, push_char,
    owned, str_contains, string_of, string_of_range, to_ascii_lower, trim, trim_end, trim_start, trimmed,
};
use crate::error::ServiceError;
use crate::time::Timestamp;

verus! {

/// The quote is found in the source, either verbatim or once runs of
/// whitespace are collapsed to single spaces on both sides.
pub open spec fn grounded(source: Seq<char>, quote: Seq<char>) -> bool {
    contains_seq(source, quote) || contains_seq(normalize_ws(source), normalize_ws(quote))
}

/// Whether `quote` is grounded in `source`: it occurs there verbatim, or
/// after whitespace normalisation of both texts.
pub fn evidence_is_grounded(source: &str, quote: &str) -> (b: bool)
    ensures
        b == grounded(source@, quote@),
{
    if str_contains(source, quote) {
        return true;
    }
    let s = normalize_whitespace(source);
    let q = normalize_whitespace(quote);
    str_contains(s.as_str(), q.as_str())
}

/// The markers of secret material, in lower case.
pub open spec fn spec_sensitive_needle(i: int) -> Seq<char> {
    if i == 0 {
        "password:"@
    } else if i == 1 {
        "password ="@
    } else if i == 2 {
        "api_key"@
    } else if i == 3 {
        "api key:"@
    } else if i == 4 {
        "access_token"@
    } else if i == 5 {
        "access token:"@
    } else if i == 6 {
        "bearer "@
    } else if i == 7 {
        "private key"@
    } else if i == 8 {
        "-----begin private"@
    } else if i == 9 {
        "client_secret"@
    } else {
        "refresh_token"@
    }
}

/// The number of secret markers.
pub open spec fn sensitive_needle_count() -> int {
    11
}

fn sensitive_needle(i: usize) -> (s: &'static str)
    requires
        i < 11,
    ensures
        s@ == spec_sensitive_needle(i as int),
{
    if i == 0 {
        "password:"
    } else if i == 1 {
        "password ="
    } else if i == 2 {
        "api_key"
    } else if i == 3 {
        "api key:"
    } else if i == 4 {
        "access_token"
    } else if i == 5 {
        "access token:"
    } else if i == 6 {
        "bearer "
    } else if i == 7 {
        "private key"
    } else if i == 8 {
        "-----begin private"
    } else if i == 9 {
        "client_secret"
    } else {
        "refresh_token"
    }
}

/// The ASCII-lower-cased text holds one of the secret markers.
pub open spec fn sensitive(value: Seq<char>) -> bool {
    exists|i: int|
        0 <= i < sensitive_needle_count() && contains_seq(
            ascii_lower(value),
            #[trigger] spec_sensitive_needle(i),
        )
}

/// Whether `value` looks like it holds a credential: its ASCII lower-cased
/// form contains one of the secret markers.
pub fn contains_sensitive_material(value: &str) -> (b: bool)
    ensures
        b == sensitive(value@),
{
    let lower = to_ascii_lower(value);
    let mut i: usize = 0;
    while i < 11
        invariant
            i <= 11,
            lower@ == ascii_lower(value@),
            forall|k: int| 0 <= k < i ==> !contains_seq(lower@, #[trigger] spec_sensitive_needle(k)),
        decreases 11 - i,
    {
        let needle = chars_of(sensitive_needle(i));
        if contains_chars(&lower, &needle) {
            assert(contains_seq(ascii_lower(value@), spec_sensitive_needle(i as int)));
            return true;
        }
        i = i + 1;
    }
    false
}

/// The memory types that a candidate may have.
pub open spec fn allowed_memory_type(t: Seq<char>) -> bool {
    ||| t == "preference"@
    ||| t == "decision"@
    ||| t == "goal"@
    ||| t == "constraint"@
    ||| t == "project"@
    ||| t == "person"@
    ||| t == "fact"@
    ||| t == "experience"@
    ||| t == "routine"@
    ||| t == "skill"@
}

fn is_allowed_memory_type(t: &Vec<char>) -> (b: bool)
    ensures
        b == allowed_memory_type(t@),
{
    chars_equal_str(t, "preference") || chars_equal_str(t, "decision") || chars_equal_str(t, "goal")
        || chars_equal_str(t, "constraint") || chars_equal_str(t, "project") || chars_equal_str(
        t,
        "person",
    ) || chars_equal_str(t, "fact") || chars_equal_str(t, "experience") || chars_equal_str(
        t,
        "routine",
    ) || chars_equal_str(t, "skill")
}

/// Why a proposed memory was discarded.
#[derive(Debug, Clone, Copy, PartialEq, Eq)]
pub enum CandidateRejection {
    UnsupportedMemoryType,
    InvalidStatementLength,
    InvalidScores,
    UngroundedEvidence,
    SensitiveMaterial,
}

impl CandidateRejection {
    /// The reason, as logged when a candidate is discarded.
    pub fn reason(&self) -> (s: &'static str)
        ensures
            s@ == match *self {
                CandidateRejection::UnsupportedMemoryType => "unsupported memory type"@,
                CandidateRejection::InvalidStatementLength => "invalid statement length"@,
                CandidateRejection::InvalidScores => "invalid confidence or importance"@,
                CandidateRejection::UngroundedEvidence => "evidence quote is not grounded in source"@,
                CandidateRejection::SensitiveMaterial => "candidate may contain secret material"@,
            },
    {
        match self {
            CandidateRejection::UnsupportedMemoryType => "unsupported memory type",
            CandidateRejection::InvalidStatementLength => "invalid statement length",
            CandidateRejection::InvalidScores => "invalid confidence or importance",
            CandidateRejection::UngroundedEvidence => "evidence quote is not grounded in source",
            CandidateRejection::SensitiveMaterial => "candidate may contain secret material",
        }
    }
}

/// The verdict on a proposed memory, checks taken in order: its type, its
/// statement's length, its scores, the grounding of its evidence quote in the
/// source, and the absence of secret material.
pub open spec fn spec_validate_candidate(
    source: Seq<char>,
    memory_type: Seq<char>,
    statement: Seq<char>,
    evidence_quote: Seq<char>,
    scores_in_unit_interval: bool,
) -> Result<(), CandidateRejection> {
    let statement = trim(statement);
    let quote = trim(evidence_quote);
    if !allowed_memory_type(trim(memory_type)) {
        Err(CandidateRejection::UnsupportedMemoryType)
    } else if statement.len() == 0 || statement.len() > 1000 {
        Err(CandidateRejection::InvalidStatementLength)
    } else if !scores_in_unit_interval {
        Err(CandidateRejection::InvalidScores)
    } else if quote.len() < 4 || !grounded(source, quote) {
        Err(CandidateRejection::UngroundedEvidence)
    } else if sensitive(statement) || sensitive(quote) {
        Err(CandidateRejection::SensitiveMaterial)
    } else {
        Ok(())
    }
}

/// Checks a proposed memory against its source.  `scores_in_unit_interval`
/// tells whether its confidence and importance are finite numbers in `[0, 1]`.
pub fn validate_candidate(
    source_content: &str,
    memory_type: &str,
    statement: &str,
    evidence_quote: &str,
    scores_in_unit_interval: bool,
) -> (r: Result<(), CandidateRejection>)
    ensures
        r == spec_validate_candidate(
            source_content@,
            memory_type@,
            statement@,
            evidence_quote@,
            scores_in_unit_interval,
        ),
{
    let t = trimmed(memory_type);
    if !is_allowed_memory_type(&t) {
        return Err(CandidateRejection::UnsupportedMemoryType);
    }
    let st = trimmed(statement);
    if st.len() == 0 || st.len() > 1000 {
        return Err(CandidateRejection::InvalidStatementLength);
    }
    if !scores_in_unit_interval {
        return Err(CandidateRejection::InvalidScores);
    }
    let q = trimmed(evidence_quote);
    let qs = string_of(&q);
    if q.len() < 4 || !evidence_is_grounded(source_content, qs.as_str()) {
        return Err(CandidateRejection::UngroundedEvidence);
    }
    let sts = string_of(&st);
    if contains_sensitive_material(sts.as_str()) || contains_sensitive_material(qs.as_str()) {
        return Err(CandidateRejection::SensitiveMaterial);
    }
    Ok(())
}

/// Whether extraction runs for a source: not at all when it is switched off
/// (`Ok(false)`); an error when it is switched on without a configured
/// memory provider; otherwise it runs (`Ok(true)`).
pub fn extraction_gate(extraction_enabled: bool, provider_configured: bool) -> (r: Result<
    bool,
    ServiceError,
>)
    ensures
        !extraction_enabled ==> r == Ok::<bool, ServiceError>(false),
        extraction_enabled && !provider_configured ==> (r matches Err(ServiceError::Config(m))
            && m@ == "automatic memory extraction is enabled without a configured memory provider"@),
        extraction_enabled && provider_configured ==> r == Ok::<bool, ServiceError>(true),
{
    if !extraction_enabled {
        return Ok(false);
    }
    if !provider_configured {
        return Err(
            ServiceError::Config(
                owned("automatic memory extraction is enabled without a configured memory provider"),
            ),
        );
    }
    Ok(true)
}

/// The verdict on a proposed memory, as the extraction loop uses it.
#[derive(Debug, Clone)]
pub enum ProposalScreen {
    /// The proposal is discarded, for this reason.
    Discard { reason: CandidateRejection },
    /// The proposal goes on, with its trimmed type and statement.
    Keep { memory_type: String, statement: String },
}

/// Screens a proposed memory: discarded with the reason of the first failed
/// check (see `spec_validate_candidate`), else kept with its type and
/// statement trimmed.
pub fn screen_proposal(
    source_content: &str,
    memory_type: &str,
    statement: &str,
    evidence_quote: &str,
    scores_in_unit_interval: bool,
) -> (r: ProposalScreen)
    ensures
        match spec_validate_candidate(
            source_content@,
            memory_type@,
            statement@,
            evidence_quote@,
            scores_in_unit_interval,
        ) {
            Err(reason) => r == (ProposalScreen::Discard { reason }),
            Ok(()) => r matches ProposalScreen::Keep { memory_type: t, statement: st } && t@ == trim(
                memory_type@,
            ) && st@ == trim(statement@),
        },
{
    match validate_candidate(
        source_content,
        memory_type,
        statement,
        evidence_quote,
        scores_in_unit_interval,
    ) {
        Err(reason) => ProposalScreen::Discard { reason },
        Ok(()) => ProposalScreen::Keep {
            memory_type: string_of(&trimmed(memory_type)),
            statement: string_of(&trimmed(statement)),
        },
    }
}

/// Law: an accepted candidate has an allowed type, a statement of 1 to 1000
/// characters, in-range scores, an evidence quote of at least 4 characters
/// that is grounded in the source, and no secret-looking material.
pub proof fn accepted_candidate_is_grounded(
    source: Seq<char>,
    memory_type: Seq<char>,
    statement: Seq<char>,
    evidence_quote: Seq<char>,
    scores_in_unit_interval: bool,
)
    requires
        spec_validate_candidate(
            source,
            memory_type,
            statement,
            evidence_quote,
            scores_in_unit_interval,
        ) is Ok,
    ensures
        allowed_memory_type(trim(memory_type)),
        1 <= trim(statement).len() <= 1000,
        scores_in_unit_interval,
        trim(evidence_quote).len() >= 4,
        grounded(source, trim(evidence_quote)),
        !sensitive(trim(statement)),
        !sensitive(trim(evidence_quote)),
{
}

/// Law: the converse of `accepted_candidate_is_grounded`.  A candidate with
/// one of the ten memory types, a statement of 1 to 1000 characters, in-range
/// scores, and an evidence quote of at least 4 characters that occurs in the
/// source once runs of whitespace are collapsed on both sides (in particular
/// one that occurs verbatim), with no secret-looking material, is accepted.
pub proof fn grounded_candidate_is_accepted(
    source: Seq<char>,
    memory_type: Seq<char>,
    statement: Seq<char>,
    evidence_quote: Seq<char>,
)
    requires
        ({
            let t = trim(memory_type);
            ||| t == "preference"@
            ||| t == "decision"@
            ||| t == "goal"@
            ||| t == "constraint"@
            ||| t == "project"@
            ||| t == "person"@
            ||| t == "fact"@
            ||| t == "experience"@
            ||| t == "routine"@
            ||| t == "skill"@
        }),
        1 <= trim(statement).len() <= 1000,
        trim(evidence_quote).len() >= 4,
        contains_seq(source, trim(evidence_quote)) || contains_seq(
            normalize_ws(source),
            normalize_ws(trim(evidence_quote)),
        ),
        !sensitive(trim(statement)),
        !sensitive(trim(evidence_quote)),
    ensures
        spec_validate_candidate(source, memory_type, statement, evidence_quote, true) == Ok::<
            (),
            CandidateRejection,
        >(()),
{
    if contains_seq(source, trim(evidence_quote)) {
        crate::text::lemma_normalize_contains(source, trim(evidence_quote));
    }
}

/// One element of an array-shaped model reply: its `text` and `content`
/// members, each present only when it is a string.
#[derive(Debug, Clone)]
pub struct ContentItem {
    pub text: Option<String>,
    pub content: Option<String>,
}

/// The `content` of a model reply message.
#[derive(Debug, Clone)]
pub enum ResponseContent {
    /// A string.
    Text(String),
    /// An array of items.
    Items(Vec<ContentItem>),
    /// Any other JSON value.
    Other,
}

/// The text that an item contributes: its `text` member, else its `content` member.
pub open spec fn item_text(item: ContentItem) -> Option<Seq<char>> {
    match item.text {
        Some(t) => Some(t@),
        None => match item.content {
            Some(c) => Some(c@),
            None => None,
        },
    }
}

/// The texts of the items that contribute one, in order.
pub open spec fn item_texts(items: Seq<ContentItem>) -> Seq<Seq<char>>
    decreases items.len(),
{
    if items.len() == 0 {
        seq![]
    } else {
        let before = item_texts(items.drop_last());
        match item_text(items.last()) {
            Some(t) => before.push(t),
            None => before,
        }
    }
}

/// The text of a model reply: a string as is; for an array, the texts of its
/// items joined by line breaks, if there is at least one.
pub open spec fn spec_content_to_text(content: ResponseContent) -> Option<Seq<char>> {
    match content {
        ResponseContent::Text(s) => Some(s@),
        ResponseContent::Items(items) => {
            let texts = item_texts(items@);
            if texts.len() == 0 {
                None
            } else {
                Some(join_with(texts, '\n'))
            }
        },
        ResponseContent::Other => None,
    }
}

/// The view of an optional string.
pub open spec fn opt_view(o: Option<String>) -> Option<Seq<char>> {
    match o {
        Some(s) => Some(s@),
        None => None,
    }
}

/// The text of a model reply's message content.
pub fn content_to_text(content: &ResponseContent) -> (r: Option<String>)
    ensures
        opt_view(r) == spec_content_to_text(*content),
{
    match content {
        ResponseContent::Text(s) => Some(s.clone()),
        ResponseContent::Items(items) => {
            let mut out = String::new();
            let mut emitted = false;
            let mut i: usize = 0;
            let n = items.len();
            while i < n
                invariant
                    n == items.len(),
                    i <= n,
                    emitted == (item_texts(items@.take(i as int)).len() > 0),
                    out@ == join_with(item_texts(items@.take(i as int)), '\n'),
                decreases n - i,
            {
                let item = &items[i];
                let ghost before = item_texts(items@.take(i as int));
                assert(items@.take(i + 1).drop_last() =~= items@.take(i as int));
                assert(items@.take(i + 1).last() == items@[i as int]);
                let piece: Option<&String> = match &item.text {
                    Some(t) => Some(t),
                    None => match &item.content {
                        Some(c) => Some(c),
                        None => None,
                    },
                };
                match piece {
                    Some(p) => {
                        proof {
                            lemma_join_push(before, p@, '\n');
                        }
                        if emitted {
                            push_char(&mut out, '\n');
                        }
                        out.append(p.as_str());
                        emitted = true;
                    },
                    None => {},
                }
                i = i + 1;
            }
            assert(items@.take(n as int) =~= items@);
            if emitted {
                Some(out)
            } else {
                None
            }
        },
        ResponseContent::Other => None,
    }
}

/// Three back-ticks, the fence of a Markdown code block.
pub open spec fn fence() -> Seq<char> {
    seq!['`', '`', '`']
}

/// `s` begins with `p`.
pub open spec fn starts_with(s: Seq<char>, p: Seq<char>) -> bool {
    p.len() <= s.len() && s.take(p.len() as int) == p
}

/// `s` ends with `p`.
pub open spec fn ends_with(s: Seq<char>, p: Seq<char>) -> bool {
    p.len() <= s.len() && s.skip(s.len() - p.len()) == p
}

/// Law: grounding is containment after whitespace normalisation.  A quote
/// found verbatim is grounded, and whether a quote is grounded does not
/// change when the runs of whitespace of the source or the quote are
/// replaced by single spaces.
pub proof fn grounding_law(source: Seq<char>, quote: Seq<char>)
    ensures
        grounded(source, quote) == contains_seq(normalize_ws(source), normalize_ws(quote)),
        contains_seq(source, quote) ==> grounded(source, quote),
        grounded(source, quote) == grounded(normalize_ws(source), normalize_ws(quote)),
{
    if contains_seq(source, quote) {
        crate::text::lemma_normalize_contains(source, quote);
    }
    crate::text::normalization_laws(source);
    crate::text::normalization_laws(quote);
    let ns = normalize_ws(source);
    let nq = normalize_ws(quote);
    if contains_seq(ns, nq) {
        crate::text::lemma_normalize_contains(ns, nq);
    }
}

/// The index of the first `c` in `s`.
pub open spec fn first_index(s: Seq<char>, c: char) -> Option<int>
    decreases s.len(),
{
    if s.len() == 0 {
        None
    } else if s[0] == c {
        Some(0)
    } else {
        match first_index(s.drop_first(), c) {
            Some(i) => Some(i + 1),
            None => None,
        }
    }
}

/// The index of the last `c` in `s`.
pub open spec fn last_index(s: Seq<char>, c: char) -> Option<int>
    decreases s.len(),
{
    if s.len() == 0 {
        None
    } else if s.last() == c {
        Some(s.len() - 1)
    } else {
        last_index(s.drop_last(), c)
    }
}

/// The body of a fenced reply: what follows the first line break, without a
/// closing fence, trimmed.
pub open spec fn fenced_body(t: Seq<char>) -> Seq<char> {
    let without_open = match first_index(t, '\n') {
        Some(i) => t.skip(i + 1),
        None => t,
    };
    let body = if ends_with(without_open, fence()) {
        without_open.take(without_open.len() - 3)
    } else {
        without_open
    };
    trim(body)
}

/// The reply can be cut: unless it is fenced, its first `{` does not come
/// after the character that follows its last `}`.
pub open spec fn payload_defined(raw: Seq<char>) -> bool {
    let t = trim(raw);
    starts_with(t, fence()) || match (first_index(t, '{'), last_index(t, '}')) {
        (Some(s), Some(e)) => s <= e + 1,
        _ => true,
    }
}

/// The JSON text inside a model reply: the body of a fenced code block, else
/// the span from the first `{` to the last `}`, else the trimmed reply.
pub open spec fn spec_extraction_payload(raw: Seq<char>) -> Seq<char> {
    let t = trim(raw);
    if starts_with(t, fence()) {
        fenced_body(t)
    } else {
        match (first_index(t, '{'), last_index(t, '}')) {
            (Some(s), Some(e)) => t.subrange(s, e + 1),
            _ => t,
        }
    }
}

/// Law: a reply that is a fenced code block — a fence with an optional
/// info string on its first line, then a body without surrounding
/// whitespace on its own lines, then a closing fence — gives its body.
pub proof fn fenced_payload_law(info: Seq<char>, body: Seq<char>)
    requires
        forall|k: int| 0 <= k < info.len() ==> info[k] != '\n',
        trim(body) == body,
    ensures
        spec_extraction_payload(fence() + info + seq!['\n'] + body + seq!['\n'] + fence()) == body,
{
    let raw = fence() + info + seq!['\n'] + body + seq!['\n'] + fence();
    let n = info.len() as int;
    // The reply is already trimmed: it starts and ends with a backtick.
    assert(raw[0] == '`');
    assert(raw.last() == '`');
    assert(trim_start(raw) == raw);
    assert(trim_end(raw) == raw);
    assert(raw.take(3) =~= fence());
    // Its first line break ends the opening line.
    assert(raw[3 + n] == '\n');
    assert forall|k: int| 0 <= k < 3 + n implies raw[k] != '\n' by {
        if k >= 3 {
            assert(raw[k] == info[k - 3]);
        }
    }
    lemma_first_index(raw, '\n');
    assert(first_index(raw, '\n') == Some(3 + n));
    let without_open = raw.skip(4 + n);
    assert(without_open =~= body + seq!['\n'] + fence());
    assert(without_open.skip(without_open.len() - 3) =~= fence());
    let inner = without_open.take(without_open.len() - 3);
    assert(inner =~= body.push('\n'));
    lemma_trim_newline(body);
}

/// A trimmed text followed by a line break trims back to itself.
proof fn lemma_trim_newline(body: Seq<char>)
    requires
        trim(body) == body,
    ensures
        trim(body.push('\n')) == body,
{
    let s = body.push('\n');
    assert(is_white_space('\n'));
    if body.len() == 0 {
        assert(s =~= seq!['\n']);
        assert(trim_start(s) == trim_start(s.drop_first()));
        assert(s.drop_first() =~= Seq::<char>::empty());
    } else {
        let d = crate::text::lemma_trim_start_shape(body);
        let x = body.skip(d);
        let e = crate::text::lemma_trim_end_shape(x);
        assert(body.skip(d).take(e).len() == body.len());
        assert(d == 0);
        assert(!is_white_space(body[0]));
        assert(x =~= body);
        assert(e == body.len());
        assert(!is_white_space(body.last()));
        assert(s[0] == body[0]);
        assert(trim_start(s) == s);
        assert(s.drop_last() =~= body);
        assert(trim_end(s) == trim_end(body));
        assert(trim_end(body) == body);
    }
}

proof fn lemma_first_index(s: Seq<char>, c: char)
    ensures
        match first_index(s, c) {
            Some(i) => 0 <= i < s.len() && s[i] == c && forall|k: int| 0 <= k < i ==> s[k] != c,
            None => forall|k: int| 0 <= k < s.len() ==> s[k] != c,
        },
    decreases s.len(),
{
    if s.len() > 0 && s[0] != c {
        lemma_first_index(s.drop_first(), c);
        match first_index(s.drop_first(), c) {
            Some(i) => {
                assert forall|k: int| 0 <= k < i + 1 implies s[k] != c by {
                    if k > 0 {
                        assert(s[k] == s.drop_first()[k - 1]);
                    }
                }
            },
            None => {
                assert forall|k: int| 0 <= k < s.len() implies s[k] != c by {
                    if k > 0 {
                        assert(s[k] == s.drop_first()[k - 1]);
                    }
                }
            },
        }
    }
}

proof fn lemma_last_index(s: Seq<char>, c: char)
    ensures
        match last_index(s, c) {
            Some(i) => 0 <= i < s.len() && s[i] == c && forall|k: int| i < k < s.len() ==> s[k] != c,
            None => forall|k: int| 0 <= k < s.len() ==> s[k] != c,
        },
    decreases s.len(),
{
    if s.len() > 0 && s.last() != c {
        lemma_last_index(s.drop_last(), c);
        match last_index(s.drop_last(), c) {
            Some(i) => {
                assert forall|k: int| i < k < s.len() implies s[k] != c by {
                    if k < s.len() - 1 {
                        assert(s[k] == s.drop_last()[k]);
                    }
                }
            },
            None => {
                assert forall|k: int| 0 <= k < s.len() implies s[k] != c by {
                    if k < s.len() - 1 {
                        assert(s[k] == s.drop_last()[k]);
                    }
                }
            },
        }
    }
}

fn find_first(v: &Vec<char>, c: char) -> (r: Option<usize>)
    ensures
        match r {
            Some(i) => i < v.len() && first_index(v@, c) == Some(i as int),
            None => first_index(v@, c) is None,
        },
{
    proof {
        lemma_first_index(v@, c);
    }
    let n = v.len();
    let mut i: usize = 0;
    while i < n
        invariant
            n == v.len(),
            i <= n,
            forall|k: int| 0 <= k < i ==> v@[k] != c,
        decreases n - i,
    {
        if v[i] == c {
            proof {
                lemma_first_index(v@, c);
            }
            return Some(i);
        }
        i = i + 1;
    }
    None
}

fn find_last(v: &Vec<char>, c: char) -> (r: Option<usize>)
    ensures
        match r {
            Some(i) => i < v.len() && last_index(v@, c) == Some(i as int),
            None => last_index(v@, c) is None,
        },
{
    proof {
        lemma_last_index(v@, c);
    }
    let mut i: usize = v.len();
    while i > 0
        invariant
            i <= v.len(),
            forall|k: int| i <= k < v.len() ==> v@[k] != c,
        decreases i,
    {
        if v[i - 1] == c {
            proof {
                lemma_last_index(v@, c);
            }
            return Some(i - 1);
        }
        i = i - 1;
    }
    None
}

fn starts_with_fence(v: &Vec<char>) -> (b: bool)
    ensures
        b == starts_with(v@, fence()),
{
    if v.len() >= 3 && v[0] == '`' && v[1] == '`' && v[2] == '`' {
        assert(v@.take(3) =~= fence());
        true
    } else {
        if v.len() >= 3 {
            assert(v@.take(3)[0] == v@[0] && v@.take(3)[1] == v@[1] && v@.take(3)[2] == v@[2]);
        }
        false
    }
}

/// Whether the payload of `raw` can be cut out (see `payload_defined`).
pub fn extraction_payload_is_defined(raw: &str) -> (b: bool)
    ensures
        b == payload_defined(raw@),
{
    let t = trimmed(raw);
    if starts_with_fence(&t) {
        return true;
    }
    match (find_first(&t, '{'), find_last(&t, '}')) {
        (Some(s), Some(e)) => s <= e + 1,
        _ => true,
    }
}

/// The JSON text inside a model reply (see `spec_extraction_payload`).
pub fn extraction_payload(raw: &str) -> (out: String)
    requires
        payload_defined(raw@),
    ensures
        out@ == spec_extraction_payload(raw@),
{
    let t = trimmed(raw);
    let n = t.len();
    if starts_with_fence(&t) {
        let open_end: usize = match find_first(&t, '\n') {
            Some(i) => i + 1,
            None => 0,
        };
        proof {
            lemma_first_index(t@, '\n');
        }
        let ghost without_open = t@.subrange(open_end as int, n as int);
        assert(without_open == match first_index(t@, '\n') {
            Some(i) => t@.skip(i + 1),
            None => t@,
        });
        let mut body_end = n;
        if n - open_end >= 3 && t[n - 1] == '`' && t[n - 2] == '`' && t[n - 3] == '`' {
            assert(without_open.skip(without_open.len() - 3) =~= fence());
            body_end = n - 3;
        } else {
            if n - open_end >= 3 {
                let ghost tail = without_open.skip(without_open.len() - 3);
                assert(tail[0] == t@[n - 3] && tail[1] == t@[n - 2] && tail[2] == t@[n - 1]);
            }
        }
        assert(t@.subrange(open_end as int, body_end as int) == if ends_with(
            without_open,
            fence(),
        ) {
            without_open.take(without_open.len() - 3)
        } else {
            without_open
        });
        let (a, b) = crate::text::trim_bounds(&t, open_end, body_end);
        return string_of_range(&t, a, b);
    }
    match (find_first(&t, '{'), find_last(&t, '}')) {
        (Some(s), Some(e)) => {
            proof {
                lemma_last_index(t@, '}');
            }
            string_of_range(&t, s, e + 1)
        },
        _ => string_of(&t),
    }
}

/// What the lookup of an equal statement found among the owner's memories.
#[derive(Debug, Clone, Copy, PartialEq, Eq)]
pub enum ExistingMemory {
    Active { id: u128 },
    Candidate { id: u128 },
}

/// The service's policy for automatically promoting proposed memories.
#[derive(Debug, Clone, Copy, PartialEq, Eq)]
pub struct PromotionPolicy {
    pub auto_promote_enabled: bool,
    pub keep_unpromoted_candidates: bool,
}

/// What to do with a validated candidate.
#[derive(Debug, Clone, Copy, PartialEq, Eq)]
pub enum CandidateAction {
    /// Add the source as further evidence of this active memory.
    Reinforce { memory_id: u128 },
    /// Promote this existing candidate (once its supersession target is settled).
    PromoteExisting { memory_id: u128 },
    /// Leave everything as it is.
    Skip,
    /// Store a new candidate, promoted or not (once its supersession target is settled).
    Create { promote: bool },
}

/// Automatic promotion applies: it is enabled and the candidate's confidence
/// and importance meet the thresholds.
pub open spec fn auto_promotes(policy: PromotionPolicy, meets_thresholds: bool) -> bool {
    policy.auto_promote_enabled && meets_thresholds
}

/// The action for a validated candidate, given what an equal statement
/// already is among the owner's memories.
pub open spec fn spec_plan_candidate(
    existing: Option<ExistingMemory>,
    meets_thresholds: bool,
    policy: PromotionPolicy,
) -> CandidateAction {
    let promote = auto_promotes(policy, meets_thresholds);
    match existing {
        Some(ExistingMemory::Active { id }) => CandidateAction::Reinforce { memory_id: id },
        Some(ExistingMemory::Candidate { id }) => if promote {
            CandidateAction::PromoteExisting { memory_id: id }
        } else {
            CandidateAction::Skip
        },
        None => if policy.auto_promote_enabled && !promote && !policy.keep_unpromoted_candidates {
            CandidateAction::Skip
        } else {
            CandidateAction::Create { promote }
        },
    }
}

/// Decides what happens to a validated candidate.  `meets_thresholds` tells
/// whether its confidence and importance reach the configured minimums.
pub fn plan_candidate(
    existing: Option<ExistingMemory>,
    meets_thresholds: bool,
    policy: &PromotionPolicy,
) -> (a: CandidateAction)
    ensures
        a == spec_plan_candidate(existing, meets_thresholds, *policy),
{
    let promote = policy.auto_promote_enabled && meets_thresholds;
    match existing {
        Some(ExistingMemory::Active { id }) => CandidateAction::Reinforce { memory_id: id },
        Some(ExistingMemory::Candidate { id }) => if promote {
            CandidateAction::PromoteExisting { memory_id: id }
        } else {
            CandidateAction::Skip
        },
        None => if policy.auto_promote_enabled && !promote && !policy.keep_unpromoted_candidates {
            CandidateAction::Skip
        } else {
            CandidateAction::Create { promote }
        },
    }
}

/// Law: an existing active memory with the same statement is reinforced,
/// whatever the policy and the scores, and only such a memory is reinforced;
/// an existing equal candidate is promoted exactly when automatic promotion
/// is enabled and the thresholds are met, and left alone otherwise; a memory
/// becomes active only when automatic promotion is enabled and the
/// thresholds are met; and with promotion enabled and unpromoted candidates
/// not kept, no unpromoted candidate is stored.
pub proof fn promotion_laws(
    existing: Option<ExistingMemory>,
    meets_thresholds: bool,
    policy: PromotionPolicy,
)
    ensures
        forall|id: u128|
            existing == Some((ExistingMemory::Active { id })) ==> spec_plan_candidate(
                existing,
                meets_thresholds,
                policy,
            ) == (CandidateAction::Reinforce { memory_id: id }),
        forall|id: u128|
            existing == Some((ExistingMemory::Candidate { id })) ==> spec_plan_candidate(
                existing,
                meets_thresholds,
                policy,
            ) == if policy.auto_promote_enabled && meets_thresholds {
                CandidateAction::PromoteExisting { memory_id: id }
            } else {
                CandidateAction::Skip
            },
        forall|id: u128|
            spec_plan_candidate(existing, meets_thresholds, policy) == (CandidateAction::Reinforce {
                memory_id: id,
            }) ==> existing == Some((ExistingMemory::Active { id })),
        (spec_plan_candidate(existing, meets_thresholds, policy) is PromoteExisting
            || spec_plan_candidate(existing, meets_thresholds, policy) == (CandidateAction::Create {
            promote: true,
        })) ==> policy.auto_promote_enabled && meets_thresholds,
        spec_plan_candidate(existing, meets_thresholds, policy) == (CandidateAction::Create {
            promote: false,
        }) ==> !policy.auto_promote_enabled || policy.keep_unpromoted_candidates,
{
}

/// The memory that a candidate names as superseded: present and a UUID.
pub open spec fn spec_supersedes_target(requested: Option<Seq<char>>) -> Option<u128> {
    match requested {
        Some(s) => spec_parse_uuid(s),
        None => None,
    }
}

/// The memory that a candidate names as superseded, if it names one that
/// parses as a UUID.
pub fn supersedes_target(requested: Option<&str>) -> (r: Option<u128>)
    ensures
        r == spec_supersedes_target(
            match requested {
                Some(s) => Some(s@),
                None => None,
            },
        ),
{
    match requested {
        Some(s) => match parse_uuid(s) {
            Ok(id) => Some(id),
            Err(_) => None,
        },
        None => None,
    }
}

/// Whether a candidate goes ahead, and against which active memory.
#[derive(Debug, Clone, Copy, PartialEq, Eq)]
pub enum SupersessionOutcome {
    Proceed { supersedes: Option<u128> },
    Discard,
}

/// A candidate that names a superseded memory goes ahead only when that
/// memory is an active memory of the owner (`active_target`).
pub fn supersession_outcome(requested: bool, active_target: Option<u128>) -> (r:
    SupersessionOutcome)
    ensures
        r == if requested && active_target is None {
            SupersessionOutcome::Discard
        } else {
            (SupersessionOutcome::Proceed { supersedes: active_target })
        },
{
    if requested && active_target.is_none() {
        SupersessionOutcome::Discard
    } else {
        SupersessionOutcome::Proceed { supersedes: active_target }
    }
}

/// The start of validity of a new memory: the candidate's own RFC 3339
/// `valid_from` when it parses, else when the source occurred.
pub fn candidate_valid_from(raw: Option<&str>, source_occurred_at: Option<Timestamp>) -> (r: Option<
    Timestamp,
>)
    ensures
        match raw {
            Some(s) => match spec_parse_rfc3339(s@) {
                Some(p) => r == Some((Timestamp { secs: p.0, nanos: p.1 })),
                None => r == source_occurred_at,
            },
            None => r == source_occurred_at,
        },
{
    match raw {
        Some(s) => match parse_rfc3339(s) {
            Some(t) => Some(t),
            None => source_occurred_at,
        },
        None => source_occurred_at,
    }
}

} // verus!
