//! Deterministic, overlapping chunking of source text.
//!
//! A text is cut into windows of at most `max(target_chars, 128)` characters.
//! A window that does not reach the end of the text is shortened to end just
//! after the last sentence or line boundary found in its second half.  The
//! next window starts `min(overlap_chars, target / 2)` characters before the
//! end of the previous one (always moving forward by at least one character).
//! Each window is trimmed; whitespace-only windows produce no chunk.
use vstd::prelude::*;

use crate::text::{
    all_white_space, chars_of, is_white_space, lemma_trim_empty_iff_white_space, string_of_range,
    trim, trim_bounds, trimmed,
};

verus! {

/// One chunk of a source text, with its character offsets in that text.
#[derive(Debug, Clone, PartialEq, Eq)]
pub struct Chunk {
    pub position: i32,
    pub char_start: i32,
    pub char_end: i32,
    pub content: String,
}

/// The mathematical content of a chunk.
pub struct ChunkModel {
    pub position: int,
    pub char_start: int,
    pub char_end: int,
    pub content: Seq<char>,
}

impl View for Chunk {
    type V = ChunkModel;

    open spec fn view(&self) -> ChunkModel {
        ChunkModel {
            position: self.position as int,
            char_start: self.char_start as int,
            char_end: self.char_end as int,
            content: self.content@,
        }
    }
}

/// The models of a sequence of chunks.
pub open spec fn chunk_models(chunks: Seq<Chunk>) -> Seq<ChunkModel> {
    chunks.map_values(|c: Chunk| c@)
}

/// Characters after which a window may end early: line breaks and sentence ends.
pub open spec fn is_boundary_char(c: char) -> bool {
    ||| c == '\n'
    ||| c == '\u{3002}'
    ||| c == '\u{FF01}'
    ||| c == '\u{FF1F}'
    ||| c == '.'
    ||| c == '!'
    ||| c == '?'
}

/// The index of the last boundary character in `chars[lo..hi]`, if any.
pub open spec fn last_boundary(chars: Seq<char>, lo: int, hi: int) -> Option<int>
    decreases hi - lo,
{
    if hi <= lo {
        None
    } else if is_boundary_char(chars[hi - 1]) {
        Some(hi - 1)
    } else {
        last_boundary(chars, lo, hi - 1)
    }
}

/// The window length that is used for a requested target.
pub open spec fn effective_target(target_chars: int) -> int {
    if target_chars >= 128 {
        target_chars
    } else {
        128
    }
}

/// The overlap that is used for a requested overlap and an effective target.
pub open spec fn effective_overlap(overlap_chars: int, target: int) -> int {
    if overlap_chars <= target / 2 {
        overlap_chars
    } else {
        target / 2
    }
}

/// The end of the window that starts at `start`.
pub open spec fn window_end(chars: Seq<char>, target: int, start: int) -> int {
    let len = chars.len() as int;
    let hard_end = if start + target <= len {
        start + target
    } else {
        len
    };
    if hard_end < len {
        match last_boundary(chars, start + target / 2, hard_end) {
            Some(i) => i + 1,
            None => hard_end,
        }
    } else {
        hard_end
    }
}

/// Where the window after `[start, end)` starts.
pub open spec fn next_window_start(start: int, end: int, overlap: int) -> int {
    let back = if end >= overlap {
        end - overlap
    } else {
        0
    };
    if back >= start + 1 {
        back
    } else {
        start + 1
    }
}

/// The chunks produced from the window at `start` onward, numbered from `position`.
pub open spec fn chunks_from(
    chars: Seq<char>,
    target: int,
    overlap: int,
    start: int,
    position: int,
) -> Seq<ChunkModel>
    decreases chars.len() - start,
{
    if start < 0 || start >= chars.len() {
        seq![]
    } else {
        let end = window_end(chars, target, start);
        let content = trim(chars.subrange(start, end));
        let here = if content.len() > 0 {
            seq![ChunkModel { position, char_start: start, char_end: end, content }]
        } else {
            seq![]
        };
        let next = next_window_start(start, end, overlap);
        if end >= chars.len() || next >= chars.len() {
            here
        } else {
            here + chunks_from(
                chars,
                target,
                overlap,
                next,
                if content.len() > 0 {
                    position + 1
                } else {
                    position
                },
            )
        }
    }
}

/// The chunks of `chars` for the requested target and overlap.
pub open spec fn spec_chunk_text(chars: Seq<char>, target_chars: int, overlap_chars: int) -> Seq<
    ChunkModel,
> {
    if trim(chars).len() == 0 {
        seq![]
    } else {
        let target = effective_target(target_chars);
        chunks_from(chars, target, effective_overlap(overlap_chars, target), 0, 0)
    }
}

/// The last boundary character in `chars[lo..hi]`.
fn find_last_boundary(chars: &Vec<char>, lo: usize, hi: usize) -> (r: Option<usize>)
    requires
        lo <= hi <= chars.len(),
    ensures
        match r {
            Some(i) => lo <= i < hi && last_boundary(chars@, lo as int, hi as int) == Some(
                i as int,
            ),
            None => last_boundary(chars@, lo as int, hi as int) is None,
        },
{
    let mut j = hi;
    while j > lo
        invariant
            lo <= j <= hi <= chars.len(),
            last_boundary(chars@, lo as int, hi as int) == last_boundary(
                chars@,
                lo as int,
                j as int,
            ),
        decreases j - lo,
    {
        let c = chars[j - 1];
        if c == '\n' || c == '\u{3002}' || c == '\u{FF01}' || c == '\u{FF1F}' || c == '.' || c
            == '!' || c == '?' {
            return Some(j - 1);
        }
        j = j - 1;
    }
    None
}

/// Splits `input` into overlapping, trimmed chunks of at most
/// `max(target_chars, 128)` characters, preferring to end a chunk after a
/// sentence or line boundary.  Whitespace-only input has no chunks.
pub fn chunk_text(input: &str, target_chars: usize, overlap_chars: usize) -> (chunks: Vec<Chunk>)
    requires
        input@.len() <= i32::MAX,
    ensures
        chunk_models(chunks@) == spec_chunk_text(input@, target_chars as int, overlap_chars as int),
{
    let t = trimmed(input);
    if t.len() == 0 {
        let chunks: Vec<Chunk> = Vec::new();
        assert(chunk_models(chunks@) =~= seq![]);
        return chunks;
    }
    let chars = chars_of(input);
    let len = chars.len();
    let target: usize = if target_chars >= 128 {
        target_chars
    } else {
        128
    };
    let overlap: usize = if overlap_chars <= target / 2 {
        overlap_chars
    } else {
        target / 2
    };
    let ghost tg = target as int;
    let ghost ov = overlap as int;
    let ghost total = chunks_from(chars@, tg, ov, 0, 0);
    assert(total == spec_chunk_text(input@, target_chars as int, overlap_chars as int));
    let mut chunks: Vec<Chunk> = Vec::new();
    let mut start: usize = 0;
    let mut position: i32 = 0;
    while start < len
        invariant
            chars@ == input@,
            len == chars.len(),
            len <= i32::MAX,
            tg == target,
            ov == overlap,
            target >= 128,
            start <= len,
            0 <= position <= start,
            total == chunks_from(chars@, tg, ov, 0, 0),
            total == chunk_models(chunks@) + chunks_from(chars@, tg, ov, start as int, position as int),
        decreases len - start,
    {
        let hard_end: usize = if target <= len - start {
            start + target
        } else {
            len
        };
        let mut end = hard_end;
        if hard_end < len {
            let search_start = start + target / 2;
            match find_last_boundary(&chars, search_start, hard_end) {
                Some(i) => {
                    end = i + 1;
                },
                None => {},
            }
        }
        assert(end == window_end(chars@, tg, start as int));
        let (a, b) = trim_bounds(&chars, start, end);
        let ghost here_content = trim(chars@.subrange(start as int, end as int));
        let ghost old_models = chunk_models(chunks@);
        let ghost old_position = position;
        if a < b {
            let content = string_of_range(&chars, a, b);
            chunks.push(
                Chunk {
                    position,
                    char_start: start as i32,
                    char_end: end as i32,
                    content,
                },
            );
            assert(chunk_models(chunks@) =~= old_models + seq![
                ChunkModel {
                    position: old_position as int,
                    char_start: start as int,
                    char_end: end as int,
                    content: here_content,
                },
            ]);
            position = position + 1;
        } else {
            assert(chunk_models(chunks@) =~= old_models);
        }
        let ghost here_models = chunk_models(chunks@);
        if end >= len {
            assert(chunks_from(chars@, tg, ov, len as int, position as int) =~= seq![]);
            assert(total =~= here_models);
            start = len;
        } else {
            let back: usize = if end >= overlap {
                end - overlap
            } else {
                0
            };
            let next: usize = if back >= start + 1 {
                back
            } else {
                start + 1
            };
            assert(next as int == next_window_start(start as int, end as int, ov));
            if next >= len {
                assert(total =~= here_models);
            }
            start = next;
        }
    }
    assert(chunks_from(chars@, tg, ov, start as int, position as int) =~= seq![]);
    assert(total =~= chunk_models(chunks@));
    chunks
}

proof fn lemma_last_boundary_range(chars: Seq<char>, lo: int, hi: int)
    ensures
        match last_boundary(chars, lo, hi) {
            Some(i) => lo <= i < hi,
            None => true,
        },
    decreases hi - lo,
{
    if hi > lo {
        lemma_last_boundary_range(chars, lo, hi - 1);
    }
}

proof fn lemma_window_end(chars: Seq<char>, target: int, start: int)
    requires
        0 <= start < chars.len(),
        target >= 2,
    ensures
        start < window_end(chars, target, start) <= chars.len(),
        window_end(chars, target, start) <= start + target,
        window_end(chars, target, start) == chars.len() || window_end(chars, target, start)
            >= start + target / 2 + 1,
{
    let len = chars.len() as int;
    let hard_end = if start + target <= len {
        start + target
    } else {
        len
    };
    if hard_end < len {
        lemma_last_boundary_range(chars, start + target / 2, hard_end);
    }
}

/// A text with a non-whitespace character has a non-empty trimmed form.
proof fn lemma_trim_nonempty(s: Seq<char>, k: int)
    requires
        0 <= k < s.len(),
        !is_white_space(s[k]),
    ensures
        trim(s).len() > 0,
{
    lemma_trim_empty_iff_white_space(s);
}

proof fn lemma_chunks_from(chars: Seq<char>, target: int, overlap: int, start: int, position: int)
    requires
        0 <= start,
        target >= 2,
        0 <= overlap <= target / 2,
    ensures
        ({
            let cs = chunks_from(chars, target, overlap, start, position);
            &&& forall|i: int|
                0 <= i < cs.len() ==> {
                    &&& #[trigger] cs[i].position == position + i
                    &&& start <= cs[i].char_start < cs[i].char_end <= chars.len()
                    &&& cs[i].char_end - cs[i].char_start <= target
                    &&& cs[i].content == trim(chars.subrange(cs[i].char_start, cs[i].char_end))
                    &&& cs[i].content.len() > 0
                    &&& (start < chars.len() ==> cs[i].char_end >= window_end(
                        chars,
                        target,
                        start,
                    ))
                }
            &&& forall|i: int, j: int|
                0 <= i < j < cs.len() ==> {
                    &&& #[trigger] cs[i].char_start < #[trigger] cs[j].char_start
                    &&& cs[i].char_end < cs[j].char_end
                    &&& cs[j].char_start >= cs[i].char_end - overlap
                }
            &&& forall|p: int|
                start <= p < chars.len() && !is_white_space(#[trigger] chars[p]) ==> exists|i: int|
                    0 <= i < cs.len() && #[trigger] cs[i].char_start <= p < cs[i].char_end
        }),
    decreases chars.len() - start,
{
    let cs = chunks_from(chars, target, overlap, start, position);
    if start >= chars.len() {
        return;
    }
    lemma_window_end(chars, target, start);
    let end = window_end(chars, target, start);
    let content = trim(chars.subrange(start, end));
    let here = if content.len() > 0 {
        seq![ChunkModel { position, char_start: start, char_end: end, content }]
    } else {
        seq![]
    };
    let next = next_window_start(start, end, overlap);
    let next_position = if content.len() > 0 {
        position + 1
    } else {
        position
    };
    assert(next <= end);
    if end >= chars.len() || next >= chars.len() {
        assert(cs == here);
        assert forall|p: int|
            start <= p < chars.len() && !is_white_space(#[trigger] chars[p]) implies exists|i: int|
                0 <= i < cs.len() && #[trigger] cs[i].char_start <= p < cs[i].char_end by {
            assert(p < end);
            lemma_trim_nonempty(chars.subrange(start, end), p - start);
            assert(cs[0].char_start <= p < cs[0].char_end);
        }
        return;
    }
    let rest = chunks_from(chars, target, overlap, next, next_position);
    lemma_chunks_from(chars, target, overlap, next, next_position);
    lemma_window_end(chars, target, next);
    assert(window_end(chars, target, next) > end);
    assert(cs == here + rest);
    assert forall|i: int| 0 <= i < cs.len() implies {
        &&& #[trigger] cs[i].position == position + i
        &&& start <= cs[i].char_start < cs[i].char_end <= chars.len()
        &&& cs[i].char_end - cs[i].char_start <= target
        &&& cs[i].content == trim(chars.subrange(cs[i].char_start, cs[i].char_end))
        &&& cs[i].content.len() > 0
        &&& (start < chars.len() ==> cs[i].char_end >= window_end(chars, target, start))
    } by {
        if i >= here.len() {
            assert(cs[i] == rest[i - here.len()]);
        }
    }
    assert forall|i: int, j: int| 0 <= i < j < cs.len() implies {
        &&& #[trigger] cs[i].char_start < #[trigger] cs[j].char_start
        &&& cs[i].char_end < cs[j].char_end
        &&& cs[j].char_start >= cs[i].char_end - overlap
    } by {
        assert(cs[j] == rest[j - here.len()]);
        assert(rest[j - here.len()].position == next_position + j - here.len());
        if i >= here.len() {
            assert(cs[i] == rest[i - here.len()]);
            assert(rest[i - here.len()].position == next_position + i - here.len());
        }
    }
    assert forall|p: int|
        start <= p < chars.len() && !is_white_space(#[trigger] chars[p]) implies exists|i: int|
            0 <= i < cs.len() && #[trigger] cs[i].char_start <= p < cs[i].char_end by {
        if p < end {
            lemma_trim_nonempty(chars.subrange(start, end), p - start);
            assert(cs[0].char_start <= p < cs[0].char_end);
        } else {
            let k = choose|k: int| 0 <= k < rest.len() && #[trigger] rest[k].char_start <= p < rest[k].char_end;
            assert(cs[k + here.len()] == rest[k]);
        }
    }
}

/// Each chunk is numbered by its index, lies inside the text, spans at most
/// `target` characters, and holds the trimmed, non-empty text of its window.
pub open spec fn chunks_well_formed(text: Seq<char>, cs: Seq<ChunkModel>, target: int) -> bool {
    forall|i: int|
        0 <= i < cs.len() ==> {
            &&& #[trigger] cs[i].position == i
            &&& 0 <= cs[i].char_start < cs[i].char_end <= text.len()
            &&& cs[i].char_end - cs[i].char_start <= target
            &&& cs[i].content == trim(text.subrange(cs[i].char_start, cs[i].char_end))
            &&& cs[i].content.len() > 0
        }
}

/// Windows move strictly forward, and a later chunk starts no earlier than
/// `overlap` characters before the end of an earlier one.
pub open spec fn chunks_ordered(cs: Seq<ChunkModel>, overlap: int) -> bool {
    forall|i: int, j: int|
        0 <= i < j < cs.len() ==> {
            &&& #[trigger] cs[i].char_start < #[trigger] cs[j].char_start
            &&& cs[i].char_end < cs[j].char_end
            &&& cs[j].char_start >= cs[i].char_end - overlap
        }
}

/// Every non-whitespace character of the text lies in some chunk.
pub open spec fn chunks_cover(text: Seq<char>, cs: Seq<ChunkModel>) -> bool {
    forall|p: int|
        0 <= p < text.len() && !is_white_space(#[trigger] text[p]) ==> exists|i: int|
            0 <= i < cs.len() && #[trigger] cs[i].char_start <= p < cs[i].char_end
}

/// Laws of chunking, for any text and any requested target and overlap:
/// chunks are numbered 0, 1, 2, ...; each chunk is the trimmed, non-empty text
/// of its window; a window is non-empty and at most `max(target_chars, 128)`
/// characters long; windows move strictly forward and a later chunk starts no
/// earlier than `min(overlap_chars, target / 2)` characters before the end of
/// an earlier one; every non-whitespace character of the text lies in some
/// chunk; and the text has no chunk exactly when it is whitespace only.
pub proof fn chunk_text_laws(text: Seq<char>, target_chars: int, overlap_chars: int)
    requires
        target_chars >= 0,
        overlap_chars >= 0,
    ensures
        chunks_well_formed(
            text,
            spec_chunk_text(text, target_chars, overlap_chars),
            effective_target(target_chars),
        ),
        chunks_ordered(
            spec_chunk_text(text, target_chars, overlap_chars),
            effective_overlap(overlap_chars, effective_target(target_chars)),
        ),
        chunks_cover(text, spec_chunk_text(text, target_chars, overlap_chars)),
        spec_chunk_text(text, target_chars, overlap_chars).len() == 0 <==> all_white_space(text),
{
    let target = effective_target(target_chars);
    let overlap = effective_overlap(overlap_chars, target);
    lemma_trim_empty_iff_white_space(text);
    lemma_chunks_from(text, target, overlap, 0, 0);
    let cs = spec_chunk_text(text, target_chars, overlap_chars);
    if !all_white_space(text) {
        assert(cs == chunks_from(text, target, overlap, 0, 0));
        let p = choose|p: int| 0 <= p < text.len() && !is_white_space(#[trigger] text[p]);
        assert(cs.len() > 0);
        assert(chunks_well_formed(text, cs, target));
        assert(chunks_ordered(cs, overlap));
        assert(chunks_cover(text, cs));
    } else {
        assert(cs.len() == 0);
        assert forall|p: int| 0 <= p < text.len() implies is_white_space(#[trigger] text[p]) by {}
    }
}

/// A chunk whose window can reach the end of the text ends there.
proof fn lemma_chunks_reach_end(chars: Seq<char>, target: int, overlap: int, start: int, position: int)
    requires
        0 <= start,
        target >= 2,
        0 <= overlap <= target / 2,
    ensures
        forall|i: int|
            0 <= i < chunks_from(chars, target, overlap, start, position).len() && #[trigger] chunks_from(
                chars,
                target,
                overlap,
                start,
                position,
            )[i].char_start + target >= chars.len() ==> chunks_from(
                chars,
                target,
                overlap,
                start,
                position,
            )[i].char_end == chars.len(),
    decreases chars.len() - start,
{
    let cs = chunks_from(chars, target, overlap, start, position);
    if start >= chars.len() {
        return;
    }
    lemma_window_end(chars, target, start);
    let end = window_end(chars, target, start);
    let content = trim(chars.subrange(start, end));
    let here = if content.len() > 0 {
        seq![ChunkModel { position, char_start: start, char_end: end, content }]
    } else {
        seq![]
    };
    let next = next_window_start(start, end, overlap);
    let next_position = if content.len() > 0 {
        position + 1
    } else {
        position
    };
    if start + target >= chars.len() {
        assert(end == chars.len());
    }
    if end >= chars.len() || next >= chars.len() {
        assert(cs == here);
    } else {
        let rest = chunks_from(chars, target, overlap, next, next_position);
        lemma_chunks_reach_end(chars, target, overlap, next, next_position);
        assert(cs == here + rest);
        assert forall|i: int|
            0 <= i < cs.len() && #[trigger] cs[i].char_start + target >= chars.len() implies cs[i].char_end
            == chars.len() by {
            if i >= here.len() {
                assert(cs[i] == rest[i - here.len()]);
            }
        }
    }
}

/// Laws of where chunks end: a window that can reach the end of the text is
/// never shortened, so the chunk of such a window ends with the text; in
/// particular a text that is not all whitespace and is no longer than
/// `max(target_chars, 128)` characters is one chunk, the whole text trimmed.
pub proof fn chunk_end_laws(text: Seq<char>, target_chars: int, overlap_chars: int)
    requires
        target_chars >= 0,
        overlap_chars >= 0,
    ensures
        forall|i: int|
            0 <= i < spec_chunk_text(text, target_chars, overlap_chars).len() && #[trigger] spec_chunk_text(
                text,
                target_chars,
                overlap_chars,
            )[i].char_start + effective_target(target_chars) >= text.len() ==> spec_chunk_text(
                text,
                target_chars,
                overlap_chars,
            )[i].char_end == text.len(),
        !all_white_space(text) && text.len() <= effective_target(target_chars) ==> {
            let cs = spec_chunk_text(text, target_chars, overlap_chars);
            &&& cs.len() == 1
            &&& cs[0].position == 0
            &&& cs[0].char_start == 0
            &&& cs[0].char_end == text.len()
            &&& cs[0].content == trim(text)
        },
{
    let target = effective_target(target_chars);
    let overlap = effective_overlap(overlap_chars, target);
    lemma_trim_empty_iff_white_space(text);
    lemma_chunks_reach_end(text, target, overlap, 0, 0);
    lemma_chunks_from(text, target, overlap, 0, 0);
    if !all_white_space(text) && text.len() <= target {
        let cs = spec_chunk_text(text, target_chars, overlap_chars);
        assert(cs == chunks_from(text, target, overlap, 0, 0));
        assert(text.len() > 0);
        assert(window_end(text, target, 0) == text.len());
        assert(text.subrange(0, text.len() as int) =~= text);
        assert(cs.len() == 1);
    }
}

} // verus!
