//! Lexical primitives: whitespace, alphanumeric words and keyword tags.
//!
//! The text is read as bytes. Every byte that the grammar gives a meaning to is
//! ASCII, so a multi-byte character never takes part in a word, a tag or a gap.

use vstd::prelude::*;
use vstd::string::StringSliceAdditionalSpecFns;
use vstd::utf8::*;

verus! {

/// Space, tab, line feed and carriage return separate tokens.
pub open spec fn is_space(b: u8) -> bool {
    b == 32 || b == 9 || b == 10 || b == 13
}

/// ASCII letters and digits make up words.
pub open spec fn is_alnum(b: u8) -> bool {
    (48 <= b <= 57) || (65 <= b <= 90) || (97 <= b <= 122)
}

/// The characters that a run of ASCII bytes stands for.
pub open spec fn text_of(bytes: Seq<u8>) -> Seq<char> {
    Seq::new(bytes.len(), |i: int| bytes[i] as char)
}

/// The first position at or after `p` that holds no whitespace.
pub open spec fn skip_spaces(s: Seq<u8>, p: int) -> int
    decreases s.len() - p,
{
    if 0 <= p < s.len() && is_space(s[p]) {
        skip_spaces(s, p + 1)
    } else {
        p
    }
}

/// The first position at or after `p` that holds no letter or digit.
pub open spec fn word_end(s: Seq<u8>, p: int) -> int
    decreases s.len() - p,
{
    if 0 <= p < s.len() && is_alnum(s[p]) {
        word_end(s, p + 1)
    } else {
        p
    }
}

/// One or more whitespace bytes at `p`: the position after them.
pub open spec fn gap(s: Seq<u8>, p: int) -> Option<int> {
    if skip_spaces(s, p) > p {
        Some(skip_spaces(s, p))
    } else {
        None
    }
}

/// The maximal word that starts at `p`, with the position after it. There is
/// none when `p` holds no letter or digit.
pub open spec fn word(s: Seq<u8>, p: int) -> Option<(Seq<char>, int)> {
    if word_end(s, p) > p {
        Some((text_of(s.subrange(p, word_end(s, p))), word_end(s, p)))
    } else {
        None
    }
}

/// The bytes of `tag` stand at `p` and end at a word boundary, so that a tag
/// never matches the beginning of a longer word.
pub open spec fn has_tag(s: Seq<u8>, p: int, tag: Seq<u8>) -> bool {
    &&& 0 <= p
    &&& p + tag.len() <= s.len()
    &&& s.subrange(p, p + tag.len()) == tag
    &&& word_end(s, p + tag.len()) == p + tag.len()
}

/// `tag` at `p`: the position after it.
pub open spec fn tag_at(s: Seq<u8>, p: int, tag: Seq<u8>) -> Option<int> {
    if has_tag(s, p, tag) {
        Some(p + tag.len())
    } else {
        None
    }
}

/// Either of two tags at `p`, the first one tried first.
pub open spec fn tag2_at(s: Seq<u8>, p: int, first: Seq<u8>, second: Seq<u8>) -> Option<int> {
    if tag_at(s, p, first) is Some {
        tag_at(s, p, first)
    } else {
        tag_at(s, p, second)
    }
}

/// Whitespace and then `tag`: the position after the tag.
pub open spec fn spaced_tag(s: Seq<u8>, p: int, tag: Seq<u8>) -> Option<int> {
    if skip_spaces(s, p) > p && has_tag(s, skip_spaces(s, p), tag) {
        Some(skip_spaces(s, p) + tag.len())
    } else {
        None
    }
}

/// Whitespace and then either of two tags, the first one tried first.
pub open spec fn spaced_tag2(s: Seq<u8>, p: int, first: Seq<u8>, second: Seq<u8>) -> Option<int> {
    if spaced_tag(s, p, first) is Some {
        spaced_tag(s, p, first)
    } else {
        spaced_tag(s, p, second)
    }
}

/// Whitespace and then a word.
pub open spec fn spaced_word(s: Seq<u8>, p: int) -> Option<(Seq<char>, int)> {
    if skip_spaces(s, p) > p {
        word(s, skip_spaces(s, p))
    } else {
        None
    }
}

/// `skip_spaces` stays inside the text, passes only whitespace and stops at
/// the first byte that is none.
pub proof fn lemma_skip_spaces(s: Seq<u8>, p: int)
    requires
        0 <= p <= s.len(),
    ensures
        p <= skip_spaces(s, p) <= s.len(),
        forall|i: int| p <= i < skip_spaces(s, p) ==> is_space(#[trigger] s[i]),
        skip_spaces(s, p) < s.len() ==> !is_space(s[skip_spaces(s, p)]),
        skip_spaces(s, skip_spaces(s, p)) == skip_spaces(s, p),
    decreases s.len() - p,
{
    if p < s.len() && is_space(s[p]) {
        lemma_skip_spaces(s, p + 1);
    }
}

/// `word_end` stays inside the text, passes only letters and digits and stops
/// at the first byte that is none.
pub proof fn lemma_word_end(s: Seq<u8>, p: int)
    requires
        0 <= p <= s.len(),
    ensures
        p <= word_end(s, p) <= s.len(),
        forall|i: int| p <= i < word_end(s, p) ==> is_alnum(#[trigger] s[i]),
        word_end(s, p) < s.len() ==> !is_alnum(s[word_end(s, p)]),
        word_end(s, word_end(s, p)) == word_end(s, p),
    decreases s.len() - p,
{
    if p < s.len() && is_alnum(s[p]) {
        lemma_word_end(s, p + 1);
    }
}

/// A gap lies inside the text and ends after its start.
pub proof fn lemma_gap(s: Seq<u8>, p: int)
    ensures
        gap(s, p) matches Some(g) ==> 0 <= p < g <= s.len() && g == skip_spaces(s, p),
{
    if 0 <= p <= s.len() {
        lemma_skip_spaces(s, p);
    }
}

/// A word lies inside the text and ends after its start.
pub proof fn lemma_word(s: Seq<u8>, p: int)
    ensures
        word(s, p) matches Some((w, q)) ==> 0 <= p < q <= s.len() && q == word_end(s, p)
            && word_end(s, q) == q,
{
    if 0 <= p <= s.len() {
        lemma_word_end(s, p);
    }
}

/// A tag after a gap lies inside the text and ends after the gap's start.
pub proof fn lemma_spaced_tag(s: Seq<u8>, p: int, tag: Seq<u8>)
    ensures
        spaced_tag(s, p, tag) matches Some(q) ==> 0 <= p < q <= s.len() && word_end(s, q) == q,
{
    lemma_gap(s, p);
}

/// Either of two tags after a gap lies inside the text and ends after the
/// gap's start.
pub proof fn lemma_spaced_tag2(s: Seq<u8>, p: int, first: Seq<u8>, second: Seq<u8>)
    ensures
        spaced_tag2(s, p, first, second) matches Some(q) ==> 0 <= p < q <= s.len() && word_end(
            s,
            q,
        ) == q,
{
    lemma_spaced_tag(s, p, first);
    lemma_spaced_tag(s, p, second);
}

/// Either of two tags lies inside the text and ends at a word boundary.
pub proof fn lemma_tag2_at(s: Seq<u8>, p: int, first: Seq<u8>, second: Seq<u8>)
    ensures
        tag2_at(s, p, first, second) matches Some(q) ==> 0 <= p <= q <= s.len() && word_end(s, q)
            == q,
{
}

/// A word after a gap lies inside the text and ends after the gap's start.
pub proof fn lemma_spaced_word(s: Seq<u8>, p: int)
    ensures
        spaced_word(s, p) matches Some((w, q)) ==> 0 <= p < q <= s.len() && word_end(s, q) == q,
{
    lemma_gap(s, p);
    lemma_word(s, skip_spaces(s, p));
}

/// In valid UTF-8, a position that follows only ASCII bytes starts a character.
proof fn lemma_ascii_prefix_boundary(b: Seq<u8>, n: int)
    requires
        valid_utf8(b),
        0 <= n <= b.len(),
        forall|i: int| 0 <= i < n ==> (#[trigger] b[i]) < 128,
    ensures
        is_char_boundary(b, n),
    decreases n,
{
    if n > 0 {
        assert(b[0] < 128);
        let rest = pop_first_scalar(b);
        assert(rest == b.subrange(1, b.len() as int));
        assert forall|i: int| 0 <= i < n - 1 implies (#[trigger] rest[i]) < 128 by {
            assert(rest[i] == b[i + 1]);
        }
        lemma_ascii_prefix_boundary(rest, n - 1);
    }
}

/// A string whose encoding is a run of ASCII bytes holds exactly the
/// characters that those bytes stand for.
proof fn lemma_ascii_text(chars: Seq<char>, bytes: Seq<u8>)
    requires
        encode_utf8(chars) == bytes,
        forall|i: int| 0 <= i < bytes.len() ==> (#[trigger] bytes[i]) < 128,
    ensures
        chars == text_of(bytes),
{
    let plain = text_of(bytes);
    assert(is_ascii_chars(plain)) by {
        assert forall|i: int| 0 <= i < plain.len() implies '\0' <= #[trigger] plain[i] <= '\u{7f}' by {
            assert(bytes[i] < 128);
        }
    }
    is_ascii_chars_encode_utf8(plain);
    assert(encode_utf8(plain) =~= bytes) by {
        assert forall|i: int| 0 <= i < bytes.len() implies encode_utf8(plain)[i] == bytes[i] by {
            assert(plain[i] as u8 == encode_utf8(plain)[i]);
            assert(bytes[i] < 128);
        }
    }
    encode_utf8_decode_utf8(plain);
    encode_utf8_decode_utf8(chars);
}

/// Copies the ASCII bytes from `start` up to `end` out of the text.
fn slice_text(text: &str, start: usize, end: usize) -> (r: String)
    requires
        start <= end <= text.spec_bytes().len(),
        forall|i: int| start <= i < end ==> (#[trigger] text.spec_bytes()[i]) < 128,
    ensures
        r@ == text_of(text.spec_bytes().subrange(start as int, end as int)),
{
    let ghost bytes = text.spec_bytes();
    if start == end {
        proof {
            assert(text_of(bytes.subrange(start as int, end as int)) =~= Seq::<char>::empty());
        }
        return String::new();
    }
    proof {
        encode_utf8_valid_utf8(text@);
        assert(bytes[start as int] < 128);
        is_char_boundary_iff_not_is_continuation_byte(bytes, start as int);
    }
    let (_, tail) = text.split_at(start);
    let ghost tail_bytes = tail.spec_bytes();
    proof {
        encode_utf8_valid_utf8(tail@);
        assert forall|i: int| 0 <= i < end - start implies (#[trigger] tail_bytes[i]) < 128 by {
            assert(tail_bytes[i] == bytes[start + i]);
        }
        lemma_ascii_prefix_boundary(tail_bytes, end - start);
    }
    let (head, _) = tail.split_at(end - start);
    proof {
        let wanted = bytes.subrange(start as int, end as int);
        assert(head.spec_bytes() =~= wanted);
        lemma_ascii_text(head@, wanted);
    }
    head.to_owned()
}

/// Whether the byte separates tokens.
pub fn space(b: u8) -> (r: bool)
    ensures
        r == is_space(b),
{
    b == 32 || b == 9 || b == 10 || b == 13
}

/// Whether the byte is an ASCII letter or digit.
pub fn alnum(b: u8) -> (r: bool)
    ensures
        r == is_alnum(b),
{
    (48 <= b && b <= 57) || (65 <= b && b <= 90) || (97 <= b && b <= 122)
}

/// The first position at or after `pos` that holds no whitespace.
pub fn past_spaces(text: &str, pos: usize) -> (r: usize)
    ensures
        r == skip_spaces(text.spec_bytes(), pos as int),
        pos <= r,
        pos <= text.spec_bytes().len() ==> r <= text.spec_bytes().len(),
{
    let bytes = text.as_bytes();
    let n = bytes.len();
    let mut i: usize = pos;
    while i < n && space(bytes[i])
        invariant
            n == bytes@.len(),
            bytes@ == text.spec_bytes(),
            pos <= i,
            pos <= n ==> i <= n,
            skip_spaces(bytes@, pos as int) == skip_spaces(bytes@, i as int),
        decreases n - i,
    {
        i += 1;
    }
    i
}

/// The first position at or after `pos` that holds no letter or digit.
pub fn past_word(text: &str, pos: usize) -> (r: usize)
    ensures
        r == word_end(text.spec_bytes(), pos as int),
        pos <= r,
        pos <= text.spec_bytes().len() ==> r <= text.spec_bytes().len(),
{
    let bytes = text.as_bytes();
    let n = bytes.len();
    let mut i: usize = pos;
    while i < n && alnum(bytes[i])
        invariant
            n == bytes@.len(),
            bytes@ == text.spec_bytes(),
            pos <= i,
            pos <= n ==> i <= n,
            word_end(bytes@, pos as int) == word_end(bytes@, i as int),
        decreases n - i,
    {
        i += 1;
    }
    i
}

/// Consumes one or more whitespace bytes at `pos` and returns the position
/// after them; fails when `pos` holds none.
pub fn whitespace(text: &str, pos: usize) -> (r: Option<usize>)
    ensures
        r matches Some(q) ==> gap(text.spec_bytes(), pos as int) == Some(q as int),
        r is None ==> gap(text.spec_bytes(), pos as int) is None,
{
    let end = past_spaces(text, pos);
    if end > pos {
        Some(end)
    } else {
        None
    }
}

/// Consumes the maximal word at `pos` and returns it with the position after
/// it; fails when `pos` holds no letter or digit.
pub fn identifier(text: &str, pos: usize) -> (r: Option<(String, usize)>)
    ensures
        r matches Some((name, q)) ==> word(text.spec_bytes(), pos as int) == Some(
            (name@, q as int),
        ) && pos < q <= text.spec_bytes().len(),
        r is None ==> word(text.spec_bytes(), pos as int) is None,
{
    let end = past_word(text, pos);
    if end > pos {
        proof {
            let s = text.spec_bytes();
            if pos as int >= s.len() {
                assert(word_end(s, pos as int) == pos);
            }
            lemma_word_end(s, pos as int);
            assert forall|i: int| pos <= i < end implies (#[trigger] s[i]) < 128 by {
                assert(is_alnum(s[i]));
            }
        }
        Some((slice_text(text, pos, end), end))
    } else {
        None
    }
}

/// Matches `tag` at `pos`, up to a word boundary, and returns the position
/// after it.
pub fn keyword(text: &str, pos: usize, tag: &str) -> (r: Option<usize>)
    ensures
        r matches Some(q) ==> tag_at(text.spec_bytes(), pos as int, tag.spec_bytes()) == Some(
            q as int,
        ) && pos <= q <= text.spec_bytes().len(),
        r is None ==> tag_at(text.spec_bytes(), pos as int, tag.spec_bytes()) is None,
{
    let bytes = text.as_bytes();
    let wanted = tag.as_bytes();
    let n = bytes.len();
    let m = wanted.len();
    if pos > n || m > n - pos {
        return None;
    }
    let mut i: usize = 0;
    while i < m
        invariant
            n == bytes@.len(),
            m == wanted@.len(),
            bytes@ == text.spec_bytes(),
            wanted@ == tag.spec_bytes(),
            pos + m <= n,
            0 <= i <= m,
            forall|j: int| 0 <= j < i ==> bytes@[pos + j] == wanted@[j],
        decreases m - i,
    {
        if bytes[pos + i] != wanted[i] {
            proof {
                assert(bytes@.subrange(pos as int, pos + m)[i as int] == bytes@[pos + i]);
            }
            return None;
        }
        i += 1;
    }
    proof {
        assert(bytes@.subrange(pos as int, pos + m) =~= wanted@);
    }
    if pos + m < n && alnum(bytes[pos + m]) {
        proof {
            lemma_word_end(bytes@, pos + m + 1);
        }
        None
    } else {
        Some(pos + m)
    }
}

/// Matches either of two tags at `pos`, the first one tried first.
pub fn keyword2(text: &str, pos: usize, first: &str, second: &str) -> (r: Option<usize>)
    ensures
        r matches Some(q) ==> tag2_at(
            text.spec_bytes(),
            pos as int,
            first.spec_bytes(),
            second.spec_bytes(),
        ) == Some(q as int) && pos <= q <= text.spec_bytes().len(),
        r is None ==> tag2_at(
            text.spec_bytes(),
            pos as int,
            first.spec_bytes(),
            second.spec_bytes(),
        ) is None,
{
    match keyword(text, pos, first) {
        Some(q) => Some(q),
        None => keyword(text, pos, second),
    }
}

/// Consumes whitespace and then `tag`.
pub fn next_keyword(text: &str, pos: usize, tag: &str) -> (r: Option<usize>)
    ensures
        r matches Some(q) ==> spaced_tag(text.spec_bytes(), pos as int, tag.spec_bytes()) == Some(
            q as int,
        ) && pos < q <= text.spec_bytes().len(),
        r is None ==> spaced_tag(text.spec_bytes(), pos as int, tag.spec_bytes()) is None,
{
    let start = past_spaces(text, pos);
    if start > pos {
        keyword(text, start, tag)
    } else {
        None
    }
}

/// Consumes whitespace and then either of two tags, the first one tried first.
pub fn next_keyword2(text: &str, pos: usize, first: &str, second: &str) -> (r: Option<usize>)
    ensures
        r matches Some(q) ==> spaced_tag2(
            text.spec_bytes(),
            pos as int,
            first.spec_bytes(),
            second.spec_bytes(),
        ) == Some(q as int) && pos < q <= text.spec_bytes().len(),
        r is None ==> spaced_tag2(
            text.spec_bytes(),
            pos as int,
            first.spec_bytes(),
            second.spec_bytes(),
        ) is None,
{
    match next_keyword(text, pos, first) {
        Some(q) => Some(q),
        None => next_keyword(text, pos, second),
    }
}

/// Consumes whitespace and then a word.
pub fn next_identifier(text: &str, pos: usize) -> (r: Option<(String, usize)>)
    ensures
        r matches Some((name, q)) ==> spaced_word(text.spec_bytes(), pos as int) == Some(
            (name@, q as int),
        ) && pos < q <= text.spec_bytes().len(),
        r is None ==> spaced_word(text.spec_bytes(), pos as int) is None,
{
    let start = past_spaces(text, pos);
    if start > pos {
        proof {
            let s = text.spec_bytes();
            if pos as int >= s.len() {
                assert(skip_spaces(s, pos as int) == pos);
            }
        }
        identifier(text, start)
    } else {
        None
    }
}

} // verus!
