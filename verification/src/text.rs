//! Character-level text primitives shared by the rest of the library.
//!
//! Strings are modelled by their `Seq<char>` view.  Whitespace follows the
//! Unicode `White_Space` property, which is what `str::trim` and
//! `str::split_whitespace` use.
use vstd::prelude::*;
use vstd::string::StringExecFns;

verus! {

/// Unicode `White_Space` code points.
pub open spec fn is_white_space(c: char) -> bool {
    let u = c as u32;
    ||| 0x9 <= u <= 0xD
    ||| u == 0x20
    ||| u == 0x85
    ||| u == 0xA0
    ||| u == 0x1680
    ||| 0x2000 <= u <= 0x200A
    ||| u == 0x2028
    ||| u == 0x2029
    ||| u == 0x202F
    ||| u == 0x205F
    ||| u == 0x3000
}

/// Decides the Unicode `White_Space` property of `c`.
pub fn white_space(c: char) -> (b: bool)
    ensures
        b == is_white_space(c),
{
    let u = c as u32;
    (0x9 <= u && u <= 0xD) || u == 0x20 || u == 0x85 || u == 0xA0 || u == 0x1680 || (0x2000 <= u
        && u <= 0x200A) || u == 0x2028 || u == 0x2029 || u == 0x202F || u == 0x205F || u == 0x3000
}

/// `s` without its leading whitespace.
pub open spec fn trim_start(s: Seq<char>) -> Seq<char>
    decreases s.len(),
{
    if s.len() > 0 && is_white_space(s[0]) {
        trim_start(s.drop_first())
    } else {
        s
    }
}

/// `s` without its trailing whitespace.
pub open spec fn trim_end(s: Seq<char>) -> Seq<char>
    decreases s.len(),
{
    if s.len() > 0 && is_white_space(s.last()) {
        trim_end(s.drop_last())
    } else {
        s
    }
}

/// `s` without leading and trailing whitespace (`str::trim`).
pub open spec fn trim(s: Seq<char>) -> Seq<char> {
    trim_end(trim_start(s))
}

/// Every character of `s` is whitespace.
pub open spec fn all_white_space(s: Seq<char>) -> bool {
    forall|i: int| 0 <= i < s.len() ==> is_white_space(#[trigger] s[i])
}

/// ASCII-only lower-casing of one character (`char::to_ascii_lowercase`).
pub open spec fn ascii_lower_char(c: char) -> char {
    if 'A' <= c && c <= 'Z' {
        ((c as u32) + 32) as char
    } else {
        c
    }
}

/// ASCII-only lower-casing of a text (`str::to_ascii_lowercase`).
pub open spec fn ascii_lower(s: Seq<char>) -> Seq<char> {
    s.map_values(|c: char| ascii_lower_char(c))
}

/// `needle` occurs in `hay` as a contiguous run (`str::contains`).
pub open spec fn contains_seq(hay: Seq<char>, needle: Seq<char>) -> bool {
    exists|i: int|
        0 <= i && i + needle.len() <= hay.len() && #[trigger] hay.subrange(i, i + needle.len())
            == needle
}

/// Byte length of the UTF-8 encoding of `s` (`str::len`).
pub open spec fn utf8_len(s: Seq<char>) -> nat {
    vstd::utf8::encode_utf8(s).len()
}

/// The length of a text in UTF-8 bytes.
pub fn byte_len(s: &str) -> (n: usize)
    ensures
        n == utf8_len(s@),
{
    s.as_bytes().len()
}

/// `String::push`: appends one character to the string.
#[verifier::external_body]
pub(crate) fn push_char(s: &mut String, c: char)
    ensures
        final(s)@ == old(s)@.push(c),
{
    s.push(c);
}

/// The characters of `s`, in order.
pub fn chars_of(s: &str) -> (out: Vec<char>)
    ensures
        out@ == s@,
{
    broadcast use vstd::string::group_string_axioms;

    let mut out: Vec<char> = Vec::new();
    for c in it: s.chars()
        invariant
            out@ == it.seq().take(it.index() as int),
    {
        out.push(c);
    }
    out
}

/// Appends `v[lo..hi]` to `s`.
pub fn append_range(s: &mut String, v: &Vec<char>, lo: usize, hi: usize)
    requires
        lo <= hi <= v.len(),
    ensures
        final(s)@ == old(s)@ + v@.subrange(lo as int, hi as int),
{
    let ghost start = s@;
    let mut i = lo;
    while i < hi
        invariant
            lo <= i <= hi <= v.len(),
            s@ == start + v@.subrange(lo as int, i as int),
        decreases hi - i,
    {
        push_char(s, v[i]);
        assert(v@.subrange(lo as int, i + 1) == v@.subrange(lo as int, i as int).push(v@[i as int]));
        i = i + 1;
    }
}

/// The string made of `v[lo..hi]`.
pub fn string_of_range(v: &Vec<char>, lo: usize, hi: usize) -> (s: String)
    requires
        lo <= hi <= v.len(),
    ensures
        s@ == v@.subrange(lo as int, hi as int),
{
    let mut s = String::new();
    append_range(&mut s, v, lo, hi);
    s
}

/// The string made of all of `v`.
pub fn string_of(v: &Vec<char>) -> (s: String)
    ensures
        s@ == v@,
{
    let s = string_of_range(v, 0, v.len());
    assert(v@.subrange(0, v@.len() as int) == v@);
    s
}

/// Whether the characters `v` begin with the characters `p`.
pub fn has_prefix(v: &Vec<char>, p: &Vec<char>) -> (b: bool)
    ensures
        b == (p@.len() <= v@.len() && v@.take(p@.len() as int) == p@),
{
    if p.len() > v.len() {
        return false;
    }
    let mut i: usize = 0;
    while i < p.len()
        invariant
            p.len() <= v.len(),
            i <= p.len(),
            v@.take(i as int) == p@.take(i as int),
        decreases p.len() - i,
    {
        if v[i] != p[i] {
            assert(v@.take(p@.len() as int)[i as int] != p@[i as int]);
            return false;
        }
        assert(v@.take(i + 1) =~= v@.take(i as int).push(v@[i as int]));
        assert(p@.take(i + 1) =~= p@.take(i as int).push(p@[i as int]));
        i = i + 1;
    }
    assert(p@.take(p@.len() as int) =~= p@);
    true
}

/// The bounds of `v[lo..hi]` once leading and trailing whitespace is removed.
pub fn trim_bounds(v: &Vec<char>, lo: usize, hi: usize) -> (r: (usize, usize))
    requires
        lo <= hi <= v.len(),
    ensures
        lo <= r.0 <= r.1 <= hi,
        v@.subrange(r.0 as int, r.1 as int) == trim(v@.subrange(lo as int, hi as int)),
{
    let mut a = lo;
    while a < hi && white_space(v[a])
        invariant
            lo <= a <= hi <= v.len(),
            trim_start(v@.subrange(lo as int, hi as int)) == trim_start(
                v@.subrange(a as int, hi as int),
            ),
        decreases hi - a,
    {
        assert(v@.subrange(a as int, hi as int).drop_first() == v@.subrange(a + 1, hi as int));
        a = a + 1;
    }
    let mut b = hi;
    while a < b && white_space(v[b - 1])
        invariant
            lo <= a <= b <= hi <= v.len(),
            trim_end(v@.subrange(a as int, hi as int)) == trim_end(v@.subrange(a as int, b as int)),
        decreases b - a,
    {
        assert(v@.subrange(a as int, b as int).drop_last() == v@.subrange(a as int, b - 1));
        b = b - 1;
    }
    (a, b)
}

/// `s` with leading and trailing whitespace removed (`str::trim`).
pub fn trimmed(s: &str) -> (out: Vec<char>)
    ensures
        out@ == trim(s@),
{
    let v = chars_of(s);
    let (a, b) = trim_bounds(&v, 0, v.len());
    assert(v@.subrange(0, v@.len() as int) == v@);
    let mut out: Vec<char> = Vec::new();
    let mut i = a;
    while i < b
        invariant
            a <= i <= b <= v.len(),
            out@ == v@.subrange(a as int, i as int),
        decreases b - i,
    {
        out.push(v[i]);
        assert(v@.subrange(a as int, i + 1) == v@.subrange(a as int, i as int).push(v@[i as int]));
        i = i + 1;
    }
    out
}

/// `s` with leading and trailing whitespace removed, as a `String`.
pub fn trimmed_string(s: &str) -> (out: String)
    ensures
        out@ == trim(s@),
{
    let v = trimmed(s);
    string_of(&v)
}

/// ASCII lower-casing of one character.
pub fn to_ascii_lower_char(c: char) -> (r: char)
    ensures
        r == ascii_lower_char(c),
{
    if 'A' <= c && c <= 'Z' {
        let b: u8 = c as u8;
        (b + 32) as char
    } else {
        c
    }
}

/// `trim_start` drops exactly the leading whitespace run of `s`.
pub proof fn lemma_trim_start_shape(s: Seq<char>) -> (d: int)
    ensures
        0 <= d <= s.len(),
        trim_start(s) == s.skip(d),
        forall|j: int| 0 <= j < d ==> is_white_space(#[trigger] s[j]),
        d < s.len() ==> !is_white_space(s[d]),
    decreases s.len(),
{
    if s.len() > 0 && is_white_space(s[0]) {
        let d1 = lemma_trim_start_shape(s.drop_first());
        assert(s.drop_first().skip(d1) =~= s.skip(d1 + 1));
        assert forall|j: int| 0 <= j < d1 + 1 implies is_white_space(#[trigger] s[j]) by {
            if j > 0 {
                assert(s[j] == s.drop_first()[j - 1]);
            }
        }
        d1 + 1
    } else {
        assert(s.skip(0) =~= s);
        0
    }
}

/// `trim_end` drops exactly the trailing whitespace run of `s`.
pub proof fn lemma_trim_end_shape(s: Seq<char>) -> (e: int)
    ensures
        0 <= e <= s.len(),
        trim_end(s) == s.take(e),
        forall|j: int| e <= j < s.len() ==> is_white_space(#[trigger] s[j]),
        e > 0 ==> !is_white_space(s[e - 1]),
    decreases s.len(),
{
    if s.len() > 0 && is_white_space(s.last()) {
        let e1 = lemma_trim_end_shape(s.drop_last());
        assert(s.drop_last().take(e1) =~= s.take(e1));
        assert forall|j: int| e1 <= j < s.len() implies is_white_space(#[trigger] s[j]) by {
            if j < s.len() - 1 {
                assert(s[j] == s.drop_last()[j]);
            }
        }
        e1
    } else {
        assert(s.take(s.len() as int) =~= s);
        s.len() as int
    }
}

/// Trimming a trimmed text changes nothing.
pub proof fn lemma_trim_idempotent(s: Seq<char>)
    ensures
        trim(trim(s)) == trim(s),
{
    let d = lemma_trim_start_shape(s);
    let x = s.skip(d);
    let e = lemma_trim_end_shape(x);
    let t = trim(s);
    assert(t == x.take(e));
    if t.len() > 0 {
        assert(t[0] == s[d]);
        assert(t.last() == x[e - 1]);
    }
    assert(trim_start(t) == t);
    assert(trim_end(t) == t);
}

/// A text keeps a non-empty trimmed form exactly when it has a non-whitespace character.
pub proof fn lemma_trim_empty_iff_white_space(s: Seq<char>)
    ensures
        (trim(s).len() == 0) <==> all_white_space(s),
{
    let d = lemma_trim_start_shape(s);
    let x = s.skip(d);
    let e = lemma_trim_end_shape(x);
    if trim(s).len() == 0 {
        assert(e == 0);
        assert forall|i: int| 0 <= i < s.len() implies is_white_space(#[trigger] s[i]) by {
            if i >= d {
                assert(s[i] == x[i - d]);
            }
        }
    }
    if all_white_space(s) {
        if d < s.len() {
            assert(is_white_space(s[d]));
        }
        assert(x.len() == 0);
    }
}

/// Length of the leading run of non-whitespace characters of `s`.
pub open spec fn word_len(s: Seq<char>) -> nat
    decreases s.len(),
{
    if s.len() > 0 && !is_white_space(s[0]) {
        1 + word_len(s.drop_first())
    } else {
        0
    }
}

/// A word is never longer than the text, and is non-empty when the text starts with a non-whitespace character.
pub proof fn lemma_word_len_bound(s: Seq<char>)
    ensures
        word_len(s) <= s.len(),
        s.len() > 0 && !is_white_space(s[0]) ==> word_len(s) >= 1,
    decreases s.len(),
{
    if s.len() > 0 && !is_white_space(s[0]) {
        lemma_word_len_bound(s.drop_first());
    }
}

/// The maximal non-empty runs of non-whitespace characters of `s`, in order
/// (`str::split_whitespace`).
pub open spec fn words(s: Seq<char>) -> Seq<Seq<char>>
    decreases s.len(),
{
    if s.len() == 0 {
        seq![]
    } else if is_white_space(s[0]) {
        words(s.drop_first())
    } else {
        proof {
            lemma_word_len_bound(s);
        }
        seq![s.take(word_len(s) as int)] + words(s.skip(word_len(s) as int))
    }
}

/// The pieces of `parts` joined with `sep` between consecutive pieces.
pub open spec fn join_with(parts: Seq<Seq<char>>, sep: char) -> Seq<char>
    decreases parts.len(),
{
    if parts.len() == 0 {
        seq![]
    } else if parts.len() == 1 {
        parts[0]
    } else {
        join_with(parts.drop_last(), sep).push(sep) + parts.last()
    }
}

/// The words of `s` separated by single spaces.
pub open spec fn normalize_ws(s: Seq<char>) -> Seq<char> {
    join_with(words(s), ' ')
}

proof fn lemma_word_len_exact(s: Seq<char>, m: int)
    requires
        0 <= m <= s.len(),
        forall|k: int| 0 <= k < m ==> !is_white_space(#[trigger] s[k]),
        m == s.len() || is_white_space(s[m]),
    ensures
        word_len(s) == m,
    decreases m,
{
    if m > 0 {
        assert forall|k: int| 0 <= k < m - 1 implies !is_white_space(#[trigger] s.drop_first()[k]) by {
            assert(s.drop_first()[k] == s[k + 1]);
        }
        if m < s.len() {
            assert(s.drop_first()[m - 1] == s[m]);
        }
        lemma_word_len_exact(s.drop_first(), m - 1);
    }
}

/// Appending a piece to a non-empty list of pieces appends the separator and the piece.
pub proof fn lemma_join_push(parts: Seq<Seq<char>>, piece: Seq<char>, sep: char)
    ensures
        join_with(parts.push(piece), sep) == if parts.len() == 0 {
            piece
        } else {
            join_with(parts, sep).push(sep) + piece
        },
{
    assert(parts.push(piece).drop_last() =~= parts);
    if parts.len() == 0 {
        assert(parts.push(piece)[0] == piece);
    }
}

/// `w` is a word: non-empty, without whitespace.
pub open spec fn is_word(w: Seq<char>) -> bool {
    w.len() > 0 && forall|k: int| 0 <= k < w.len() ==> !is_white_space(#[trigger] w[k])
}

/// The leading run counted by `word_len` holds no whitespace.
proof fn lemma_word_len_props(s: Seq<char>)
    ensures
        forall|k: int| 0 <= k < word_len(s) ==> !is_white_space(#[trigger] s[k]),
    decreases s.len(),
{
    lemma_word_len_bound(s);
    if s.len() > 0 && !is_white_space(s[0]) {
        lemma_word_len_props(s.drop_first());
        assert forall|k: int| 0 <= k < word_len(s) implies !is_white_space(#[trigger] s[k]) by {
            if k > 0 {
                assert(s[k] == s.drop_first()[k - 1]);
            }
        }
    }
}

/// Every piece that `words` gives is a word.
proof fn lemma_words_are_words(s: Seq<char>)
    ensures
        forall|i: int| 0 <= i < words(s).len() ==> is_word(#[trigger] words(s)[i]),
    decreases s.len(),
{
    if s.len() > 0 {
        if is_white_space(s[0]) {
            lemma_words_are_words(s.drop_first());
            assert(words(s) == words(s.drop_first()));
        } else {
            lemma_word_len_bound(s);
            lemma_word_len_props(s);
            let n = word_len(s) as int;
            lemma_words_are_words(s.skip(n));
            let w = s.take(n);
            assert(is_word(w)) by {
                assert forall|k: int| 0 <= k < w.len() implies !is_white_space(#[trigger] w[k]) by {
                    assert(w[k] == s[k]);
                }
            }
            assert(words(s) == seq![w] + words(s.skip(n)));
            assert forall|i: int| 0 <= i < words(s).len() implies is_word(#[trigger] words(s)[i]) by {
                if i > 0 {
                    assert(words(s)[i] == words(s.skip(n))[i - 1]);
                }
            }
        }
    }
}

/// A joined list is its first piece, then the separator and the join of the
/// rest.
pub proof fn lemma_join_front(parts: Seq<Seq<char>>, sep: char)
    requires
        parts.len() >= 1,
    ensures
        join_with(parts, sep) == parts[0] + if parts.len() == 1 {
            Seq::<char>::empty()
        } else {
            seq![sep] + join_with(parts.drop_first(), sep)
        },
    decreases parts.len(),
{
    if parts.len() == 1 {
        assert(parts[0] + Seq::<char>::empty() =~= parts[0]);
    } else if parts.len() == 2 {
        assert(parts.drop_last().len() == 1);
        assert(parts.drop_first().len() == 1);
        assert(join_with(parts.drop_first(), sep) == parts[1]);
        assert(join_with(parts.drop_last(), sep) == parts[0]);
        assert(parts[0].push(sep) + parts[1] =~= parts[0] + (seq![sep] + parts[1]));
    } else {
        let init = parts.drop_last();
        let tail = parts.drop_first();
        lemma_join_front(init, sep);
        assert(init.drop_first() =~= tail.drop_last());
        assert(tail.last() == parts.last());
        let j = join_with(tail.drop_last(), sep);
        assert(join_with(tail, sep) == j.push(sep) + tail.last());
        assert((parts[0] + (seq![sep] + j)).push(sep) + parts.last() =~= parts[0] + (seq![sep]
            + (j.push(sep) + parts.last())));
    }
}

/// The words of a word followed by whitespace or nothing.
proof fn lemma_words_of_word_then(w: Seq<char>, t: Seq<char>)
    requires
        is_word(w),
        t.len() == 0 || is_white_space(t[0]),
    ensures
        words(w + t) == seq![w] + words(t),
{
    let s = w + t;
    assert forall|k: int| 0 <= k < w.len() implies !is_white_space(#[trigger] s[k]) by {
        assert(s[k] == w[k]);
    }
    if w.len() < s.len() {
        assert(s[w.len() as int] == t[0]);
    }
    lemma_word_len_exact(s, w.len() as int);
    assert(s[0] == w[0]);
    assert(s.take(w.len() as int) =~= w);
    assert(s.skip(w.len() as int) =~= t);
}

/// Joining words with single spaces and splitting again gives the words back.
proof fn lemma_words_of_join(parts: Seq<Seq<char>>)
    requires
        forall|i: int| 0 <= i < parts.len() ==> is_word(#[trigger] parts[i]),
    ensures
        words(join_with(parts, ' ')) == parts,
    decreases parts.len(),
{
    if parts.len() == 0 {
        assert(words(Seq::<char>::empty()) == Seq::<Seq<char>>::empty());
        assert(parts =~= Seq::<Seq<char>>::empty());
    } else {
        lemma_join_front(parts, ' ');
        assert(is_word(parts[0]));
        if parts.len() == 1 {
            lemma_words_of_word_then(parts[0], Seq::<char>::empty());
            assert(parts[0] + Seq::<char>::empty() =~= parts[0]);
            assert(words(Seq::<char>::empty()) == Seq::<Seq<char>>::empty());
            assert(seq![parts[0]] + Seq::<Seq<char>>::empty() =~= parts);
        } else {
            let rest = parts.drop_first();
            assert forall|i: int| 0 <= i < rest.len() implies is_word(#[trigger] rest[i]) by {
                assert(rest[i] == parts[i + 1]);
            }
            lemma_words_of_join(rest);
            let t = seq![' '] + join_with(rest, ' ');
            assert(is_white_space(t[0]));
            lemma_words_of_word_then(parts[0], t);
            assert(t.drop_first() =~= join_with(rest, ' '));
            assert(words(t) == words(t.drop_first()));
            assert(seq![parts[0]] + rest =~= parts);
        }
    }
}

/// Every whitespace character of `x` is a space, and no two spaces are adjacent.
pub open spec fn single_spaced(x: Seq<char>) -> bool {
    &&& forall|i: int| 0 <= i < x.len() && is_white_space(#[trigger] x[i]) ==> x[i] == ' '
    &&& forall|i: int| 0 <= i < x.len() - 1 && #[trigger] x[i] == ' ' ==> x[i + 1] != ' '
}

/// A single-spaced text that ends with a word character stays so when a
/// space and a word are appended.
proof fn lemma_append_word_spaced(j: Seq<char>, w: Seq<char>)
    requires
        single_spaced(j),
        j.len() > 0,
        !is_white_space(j.last()),
        is_word(w),
    ensures
        single_spaced(j.push(' ') + w),
        (j.push(' ') + w)[0] == j[0],
        !is_white_space((j.push(' ') + w).last()),
{
    let x = j.push(' ') + w;
    let m = j.len() as int;
    assert(x.last() == w[w.len() - 1]);
    assert forall|i: int| 0 <= i < x.len() && is_white_space(#[trigger] x[i]) implies x[i]
        == ' ' by {
        if i < m {
            assert(x[i] == j[i]);
        } else if i > m {
            assert(x[i] == w[i - m - 1]);
        }
    }
    assert forall|i: int| 0 <= i < x.len() - 1 && #[trigger] x[i] == ' ' implies x[i + 1]
        != ' ' by {
        if i < m - 1 {
            assert(x[i] == j[i]);
            assert(x[i + 1] == j[i + 1]);
        } else if i == m - 1 {
            assert(x[i] == j[m - 1]);
        } else if i == m {
            assert(x[i + 1] == w[0]);
        } else {
            assert(x[i] == w[i - m - 1]);
        }
    }
}

/// Words joined with single spaces: the text starts and ends with a word
/// character (when there is one) and is single-spaced.
proof fn lemma_join_shape(parts: Seq<Seq<char>>)
    requires
        forall|i: int| 0 <= i < parts.len() ==> is_word(#[trigger] parts[i]),
    ensures
        parts.len() > 0 ==> join_with(parts, ' ').len() > 0 && !is_white_space(
            join_with(parts, ' ')[0],
        ) && !is_white_space(join_with(parts, ' ').last()),
        parts.len() == 0 ==> join_with(parts, ' ').len() == 0,
        single_spaced(join_with(parts, ' ')),
    decreases parts.len(),
{
    if parts.len() == 1 {
        let w = parts[0];
        assert(is_word(w));
        assert(join_with(parts, ' ') == w);
        assert(!is_white_space(w[0]));
        assert(!is_white_space(w[w.len() - 1]));
    } else if parts.len() > 1 {
        let init = parts.drop_last();
        assert forall|i: int| 0 <= i < init.len() implies is_word(#[trigger] init[i]) by {
            assert(init[i] == parts[i]);
        }
        lemma_join_shape(init);
        assert(is_word(parts[parts.len() - 1]));
        lemma_append_word_spaced(join_with(init, ' '), parts.last());
    }
}

/// Laws of whitespace normalisation: the result has the same words as the
/// text, is already trimmed, has no whitespace but single spaces between
/// words, and normalising it again changes nothing.
pub proof fn normalization_laws(s: Seq<char>)
    ensures
        words(normalize_ws(s)) == words(s),
        trim(normalize_ws(s)) == normalize_ws(s),
        single_spaced(normalize_ws(s)),
        normalize_ws(normalize_ws(s)) == normalize_ws(s),
{
    lemma_words_are_words(s);
    lemma_words_of_join(words(s));
    lemma_join_shape(words(s));
    let x = normalize_ws(s);
    if x.len() > 0 {
        assert(trim_start(x) == x);
        assert(trim_end(x) == x);
    } else {
        assert(trim_start(x) == x);
        assert(trim_end(x) == x);
    }
}

/// What a leading character adds in front of the normal form of the rest.
pub open spec fn lead_of(c: char, x: Seq<char>) -> Seq<char> {
    if is_white_space(c) {
        seq![]
    } else if (x.len() > 0 && !is_white_space(x[0])) || words(x).len() == 0 {
        seq![c]
    } else {
        seq![c, ' ']
    }
}

/// The normal form of a text with one more leading character.
proof fn lemma_normalize_cons(c: char, x: Seq<char>)
    ensures
        normalize_ws(seq![c] + x) == lead_of(c, x) + normalize_ws(x),
{
    let s = seq![c] + x;
    assert(s[0] == c);
    assert(s.drop_first() =~= x);
    if is_white_space(c) {
        assert(words(s) == words(x));
        assert(Seq::<char>::empty() + normalize_ws(x) =~= normalize_ws(x));
    } else {
        lemma_word_len_bound(s);
        lemma_word_len_bound(x);
        let n = word_len(x) as int;
        assert(word_len(s) == 1 + n);
        assert(s.take(1 + n) =~= seq![c] + x.take(n));
        assert(s.skip(1 + n) =~= x.skip(n));
        assert(words(s) == seq![seq![c] + x.take(n)] + words(x.skip(n)));
        if x.len() > 0 && !is_white_space(x[0]) {
            assert(words(x) == seq![x.take(n)] + words(x.skip(n)));
            lemma_join_front(words(s), ' ');
            lemma_join_front(words(x), ' ');
            assert(words(s).drop_first() =~= words(x).drop_first());
            if words(s).len() == 1 {
                assert(normalize_ws(s) =~= seq![c] + normalize_ws(x));
            } else {
                assert(normalize_ws(s) =~= seq![c] + normalize_ws(x));
            }
        } else {
            assert(n == 0);
            assert(x.take(0) =~= Seq::<char>::empty());
            assert(seq![c] + x.take(0) =~= seq![c]);
            assert(x.skip(0) =~= x);
            assert(words(s) == seq![seq![c]] + words(x));
            lemma_join_front(words(s), ' ');
            assert(words(s)[0] == seq![c]);
            assert(words(s).drop_first() =~= words(x));
            if words(x).len() == 0 {
                assert(normalize_ws(x) == Seq::<char>::empty());
                assert(normalize_ws(s) =~= seq![c] + normalize_ws(x));
            } else {
                assert(normalize_ws(s) =~= seq![c, ' '] + normalize_ws(x));
            }
        }
    }
}

/// The normal form of a text's suffix is a suffix of the text's normal form.
proof fn lemma_normalize_suffix(s: Seq<char>, i: int)
    requires
        0 <= i <= s.len(),
    ensures
        normalize_ws(s.skip(i)).len() <= normalize_ws(s).len(),
        normalize_ws(s).skip(normalize_ws(s).len() - normalize_ws(s.skip(i)).len()) == normalize_ws(
            s.skip(i),
        ),
    decreases i,
{
    if i == 0 {
        assert(s.skip(0) =~= s);
        assert(normalize_ws(s).skip(0) =~= normalize_ws(s));
    } else {
        lemma_normalize_suffix(s, i - 1);
        let a = s.skip(i - 1);
        let b = s.skip(i);
        assert(a =~= seq![s[i - 1]] + b);
        lemma_normalize_cons(s[i - 1], b);
        let na = normalize_ws(a);
        let nb = normalize_ws(b);
        let ns = normalize_ws(s);
        assert(na.skip(na.len() - nb.len()) =~= nb);
        assert(ns.skip(ns.len() - nb.len()) =~= ns.skip(ns.len() - na.len()).skip(
            na.len() - nb.len(),
        ));
    }
}

/// Words exist exactly when the normal form is non-empty.
proof fn lemma_normalize_empty(x: Seq<char>)
    ensures
        (normalize_ws(x).len() == 0) <==> (words(x).len() == 0),
{
    lemma_words_are_words(x);
    lemma_join_shape(words(x));
}

/// The normal form of a text is a prefix of the normal form of any extension.
proof fn lemma_normalize_prefix(q: Seq<char>, b: Seq<char>)
    ensures
        normalize_ws(q).len() <= normalize_ws(q + b).len(),
        normalize_ws(q + b).take(normalize_ws(q).len() as int) == normalize_ws(q),
    decreases q.len(),
{
    if q.len() == 0 {
        assert(words(q).len() == 0);
        assert(normalize_ws(q) == Seq::<char>::empty());
        assert(normalize_ws(q + b).take(0) =~= Seq::<char>::empty());
    } else {
        let c = q[0];
        let r = q.drop_first();
        assert(q =~= seq![c] + r);
        assert(q + b =~= seq![c] + (r + b));
        lemma_normalize_prefix(r, b);
        lemma_normalize_cons(c, r);
        lemma_normalize_cons(c, r + b);
        lemma_normalize_empty(r);
        lemma_normalize_empty(r + b);
        let nr = normalize_ws(r);
        let nrb = normalize_ws(r + b);
        if r.len() > 0 {
            assert((r + b)[0] == r[0]);
        }
        let lq = lead_of(c, r);
        let lqb = lead_of(c, r + b);
        if lq == lqb {
            assert((lq + nrb).take((lq + nr).len() as int) =~= lq + nr);
        } else {
            // The leads differ only when the rest holds no word: the text
            // ends with its lead, a prefix of the other.
            assert(words(r).len() == 0);
            assert(nr.len() == 0);
            assert(lq =~= seq![c]);
            assert((lqb + nrb)[0] == c);
            assert((lqb + nrb).take(1) =~= lq + nr);
        }
    }
}

/// Verbatim containment implies containment of the normal forms.
pub proof fn lemma_normalize_contains(hay: Seq<char>, needle: Seq<char>)
    requires
        contains_seq(hay, needle),
    ensures
        contains_seq(normalize_ws(hay), normalize_ws(needle)),
{
    let i = choose|i: int|
        0 <= i && i + needle.len() <= hay.len() && #[trigger] hay.subrange(i, i + needle.len())
            == needle;
    let rest = hay.skip(i);
    let tail = hay.skip(i + needle.len());
    assert(rest =~= needle + tail);
    lemma_normalize_prefix(needle, tail);
    lemma_normalize_suffix(hay, i);
    let nh = normalize_ws(hay);
    let nr = normalize_ws(rest);
    let nn = normalize_ws(needle);
    let k = nh.len() - nr.len();
    assert(nh.subrange(k, k + nn.len()) =~= nr.take(nn.len() as int));
    assert(nh.subrange(k, k + nn.len()) == nn);
}

/// The words of `value` separated by single spaces (`split_whitespace` then `join(" ")`).
pub fn normalize_whitespace(value: &str) -> (out: String)
    ensures
        out@ == normalize_ws(value@),
{
    let v = chars_of(value);
    let n = v.len();
    let mut out = String::new();
    let mut i: usize = 0;
    let ghost mut done: Seq<Seq<char>> = seq![];
    let mut emitted = false;
    assert(v@.skip(0) =~= v@);
    while i < n
        invariant
            n == v.len(),
            emitted == (done.len() > 0),
            i <= n,
            words(v@) == done + words(v@.skip(i as int)),
            out@ == join_with(done, ' '),
        decreases n - i,
    {
        if white_space(v[i]) {
            assert(v@.skip(i as int).drop_first() =~= v@.skip(i + 1));
            i = i + 1;
        } else {
            let mut j = i;
            while j < n && !white_space(v[j])
                invariant
                    i <= j <= n == v.len(),
                    forall|k: int| i <= k < j ==> !is_white_space(#[trigger] v@[k]),
                decreases n - j,
            {
                j = j + 1;
            }
            let ghost rest = v@.skip(i as int);
            assert forall|k: int| 0 <= k < j - i implies !is_white_space(#[trigger] rest[k]) by {
                assert(rest[k] == v@[i + k]);
            }
            if j < n {
                assert(rest[j - i] == v@[j as int]);
            }
            proof {
                lemma_word_len_exact(rest, (j - i) as int);
            }
            assert(rest.take((j - i) as int) =~= v@.subrange(i as int, j as int));
            assert(rest.skip((j - i) as int) =~= v@.skip(j as int));
            assert(words(rest) == seq![v@.subrange(i as int, j as int)] + words(v@.skip(j as int)));
            proof {
                lemma_join_push(done, v@.subrange(i as int, j as int), ' ');
            }
            if emitted {
                push_char(&mut out, ' ');
            }
            emitted = true;
            append_range(&mut out, &v, i, j);
            proof {
                assert(done + words(rest) =~= done.push(v@.subrange(i as int, j as int)) + words(
                    v@.skip(j as int),
                ));
                done = done.push(v@.subrange(i as int, j as int));
            }
            i = j;
        }
    }
    assert(v@.skip(n as int) =~= seq![]);
    assert(done + seq![] =~= done);
    out
}

/// Whether `needle` occurs in `hay` at position `i`.
fn occurs_at(hay: &Vec<char>, needle: &Vec<char>, i: usize) -> (b: bool)
    requires
        i + needle.len() <= hay.len(),
    ensures
        b == (hay@.subrange(i as int, i + needle.len()) == needle@),
{
    let m = needle.len();
    let mut k: usize = 0;
    while k < m
        invariant
            k <= m == needle.len(),
            i + m <= hay.len(),
            forall|q: int| 0 <= q < k ==> hay@[i + q] == needle@[q],
        decreases m - k,
    {
        if hay[i + k] != needle[k] {
            assert(hay@.subrange(i as int, i + m)[k as int] != needle@[k as int]);
            return false;
        }
        k = k + 1;
    }
    assert(hay@.subrange(i as int, i + m) =~= needle@);
    true
}

/// Whether `needle` occurs in `hay` as a contiguous run.
pub fn contains_chars(hay: &Vec<char>, needle: &Vec<char>) -> (b: bool)
    ensures
        b == contains_seq(hay@, needle@),
{
    let n = hay.len();
    let m = needle.len();
    if m > n {
        return false;
    }
    let mut i: usize = 0;
    loop
        invariant
            m <= n,
            n == hay.len(),
            m == needle.len(),
            i <= n - m,
            forall|q: int| 0 <= q < i ==> #[trigger] hay@.subrange(q, q + m) != needle@,
        decreases n - m - i,
    {
        if occurs_at(hay, needle, i) {
            return true;
        }
        if i == n - m {
            return false;
        }
        i = i + 1;
    }
}

/// Whether `needle` occurs in `hay` (`str::contains`).
pub fn str_contains(hay: &str, needle: &str) -> (b: bool)
    ensures
        b == contains_seq(hay@, needle@),
{
    let h = chars_of(hay);
    let n = chars_of(needle);
    contains_chars(&h, &n)
}

/// Whether the characters `v` spell out `s`.
pub fn chars_equal_str(v: &Vec<char>, s: &str) -> (b: bool)
    ensures
        b == (v@ == s@),
{
    let w = chars_of(s);
    if v.len() != w.len() {
        assert(v@.len() != s@.len());
        return false;
    }
    let n = v.len();
    let mut k: usize = 0;
    while k < n
        invariant
            n == v.len() == w.len(),
            w@ == s@,
            k <= n,
            forall|q: int| 0 <= q < k ==> v@[q] == w@[q],
        decreases n - k,
    {
        if v[k] != w[k] {
            assert(v@[k as int] != w@[k as int]);
            return false;
        }
        k = k + 1;
    }
    assert(v@ =~= w@);
    true
}

/// Whether the two texts are equal.
pub fn str_equal(a: &str, b: &str) -> (r: bool)
    ensures
        r == (a@ == b@),
{
    let v = chars_of(a);
    chars_equal_str(&v, b)
}

/// ASCII lower-casing of a text (`str::to_ascii_lowercase`).
pub fn to_ascii_lower(s: &str) -> (out: Vec<char>)
    ensures
        out@ == ascii_lower(s@),
{
    let v = chars_of(s);
    let n = v.len();
    let mut out: Vec<char> = Vec::new();
    let mut i: usize = 0;
    while i < n
        invariant
            n == v.len(),
            i <= n,
            out@ == ascii_lower(v@.take(i as int)),
        decreases n - i,
    {
        out.push(to_ascii_lower_char(v[i]));
        assert(ascii_lower(v@.take(i + 1)) =~= ascii_lower(v@.take(i as int)).push(
            ascii_lower_char(v@[i as int]),
        ));
        i = i + 1;
    }
    assert(v@.take(n as int) =~= v@);
    out
}

/// The decimal digit character for a value below 10.
pub open spec fn digit_char(d: int) -> char {
    (('0' as int) + d) as char
}

/// The decimal representation of `n`, without leading zeros.
pub open spec fn decimal(n: nat) -> Seq<char>
    decreases n,
{
    if n < 10 {
        seq![digit_char(n as int)]
    } else {
        decimal(n / 10).push(digit_char((n % 10) as int))
    }
}

/// Appends the decimal representation of `n` to `s`.
pub fn push_decimal(s: &mut String, n: u64)
    ensures
        final(s)@ == old(s)@ + decimal(n as nat),
    decreases n,
{
    if n >= 10 {
        push_decimal(s, n / 10);
    }
    let d = (n % 10) as u32;
    let c = char_of_digit(d);
    push_char(s, c);
    assert(decimal(n as nat) == if n < 10 {
        seq![digit_char(n as int)]
    } else {
        decimal((n / 10) as nat).push(digit_char((n % 10) as int))
    });
}

fn char_of_digit(d: u32) -> (c: char)
    requires
        d < 10,
    ensures
        c == digit_char(d as int),
{
    let b: u8 = (d as u8) + 48;
    b as char
}

/// The text `s` as an owned string.
pub fn owned(s: &str) -> (out: String)
    ensures
        out@ == s@,
{
    s.to_owned()
}

/// The text `a` followed by `b`.
pub fn concat2(a: &str, b: &str) -> (out: String)
    ensures
        out@ == a@ + b@,
{
    let mut out = a.to_owned();
    out.append(b);
    out
}

/// What `str::to_lowercase` gives for a text (full Unicode lower-casing,
/// including multi-character mappings and the final-sigma rule).
pub uninterp spec fn spec_to_lowercase(s: Seq<char>) -> Seq<char>;

/// `str::to_lowercase`.  The contract claims only that the result is a
/// function of the text; the Unicode case mapping is not restated.
#[verifier::external_body]
pub(crate) fn str_to_lowercase(s: &str) -> (r: String)
    ensures
        r@ == spec_to_lowercase(s@),
{
    s.to_lowercase()
}

/// `a` comes strictly before `b` in lexicographic order of code points, which
/// is also the byte order of their UTF-8 encodings (the order of `String`).
pub open spec fn lex_lt(a: Seq<char>, b: Seq<char>) -> bool
    decreases a.len(),
{
    if a.len() == 0 {
        b.len() > 0
    } else if b.len() == 0 {
        false
    } else if a[0] != b[0] {
        (a[0] as u32) < (b[0] as u32)
    } else {
        lex_lt(a.drop_first(), b.drop_first())
    }
}

/// Lexicographic order is a strict total order.
pub proof fn lemma_lex_order(a: Seq<char>, b: Seq<char>)
    ensures
        !(lex_lt(a, b) && lex_lt(b, a)),
        a != b ==> lex_lt(a, b) || lex_lt(b, a),
        !lex_lt(a, a),
    decreases a.len(),
{
    if a.len() > 0 && b.len() > 0 && a[0] == b[0] {
        lemma_lex_order(a.drop_first(), b.drop_first());
        if a != b {
            assert(a =~= seq![a[0]] + a.drop_first());
            assert(b =~= seq![b[0]] + b.drop_first());
        }
    }
    if a.len() > 0 {
        lemma_lex_order(a.drop_first(), a.drop_first());
    }
    if a.len() == 0 && b.len() == 0 {
        assert(a =~= b);
    }
    if a.len() > 0 && b.len() > 0 && a[0] != b[0] {
        vstd::utf8::char_u32_cast(a[0], a[0] as u32);
        vstd::utf8::char_u32_cast(b[0], b[0] as u32);
        assert((a[0] as u32) != (b[0] as u32));
    }
}

/// Whether `a` comes strictly before `b` (see `lex_lt`).
pub fn chars_lt(a: &Vec<char>, b: &Vec<char>) -> (r: bool)
    ensures
        r == lex_lt(a@, b@),
{
    let mut k: usize = 0;
    assert(a@.skip(0) =~= a@ && b@.skip(0) =~= b@);
    loop
        invariant
            k <= a.len(),
            k <= b.len(),
            lex_lt(a@, b@) == lex_lt(a@.skip(k as int), b@.skip(k as int)),
        decreases a.len() - k,
    {
        if k == a.len() {
            return k < b.len();
        }
        if k == b.len() {
            return false;
        }
        if a[k] != b[k] {
            return (a[k] as u32) < (b[k] as u32);
        }
        assert(a@.skip(k as int).drop_first() =~= a@.skip(k + 1));
        assert(b@.skip(k as int).drop_first() =~= b@.skip(k + 1));
        k = k + 1;
    }
}

/// Whether two character sequences are equal.
pub fn chars_eq(a: &Vec<char>, b: &Vec<char>) -> (r: bool)
    ensures
        r == (a@ == b@),
{
    if a.len() != b.len() {
        return false;
    }
    let n = a.len();
    let mut k: usize = 0;
    while k < n
        invariant
            n == a.len() == b.len(),
            k <= n,
            forall|q: int| 0 <= q < k ==> a@[q] == b@[q],
        decreases n - k,
    {
        if a[k] != b[k] {
            assert(a@[k as int] != b@[k as int]);
            return false;
        }
        k = k + 1;
    }
    assert(a@ =~= b@);
    true
}

/// A text has at most as many characters as its UTF-8 encoding has bytes.
pub proof fn lemma_chars_at_most_bytes(s: Seq<char>)
    ensures
        s.len() <= utf8_len(s),
    decreases s.len(),
{
    if s.len() > 0 {
        lemma_chars_at_most_bytes(s.drop_first());
    }
}

/// Appends the characters `v` to `s`.
pub fn append_chars(s: &mut String, v: &Vec<char>)
    ensures
        final(s)@ == old(s)@ + v@,
{
    append_range(s, v, 0, v.len());
    assert(v@.subrange(0, v@.len() as int) =~= v@);
}

} // verus!
