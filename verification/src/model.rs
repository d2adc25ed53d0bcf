//! Mathematical model of tokenization: what the tokens of a character
//! sequence are, with their byte ranges, character ranges and indices.

use vstd::prelude::*;
use crate::unicode::{is_unicode_whitespace, utf8_len};

verus! {

/// Reserved end-of-stream marker appended once by the annotator. It must
/// never occur as real input data.
pub const END_OF_STRING: char = '\0';

/// A character closes or separates tokens iff it is the end-of-stream
/// marker or Unicode whitespace.
pub open spec fn is_boundary(c: char) -> bool {
    c == END_OF_STRING || is_unicode_whitespace(c)
}

/// Position of the first non-boundary character at or after `i`, or the end
/// of the sequence if only boundary characters remain.
pub open spec fn skip_boundaries(s: Seq<char>, i: int) -> int
    decreases s.len() - i,
{
    if i < s.len() && is_boundary(s[i]) {
        skip_boundaries(s, i + 1)
    } else {
        i
    }
}

/// Position of the first boundary character at or after `i`, or the end of
/// the sequence if the run of non-boundary characters reaches it.
pub open spec fn word_end(s: Seq<char>, i: int) -> int
    decreases s.len() - i,
{
    if i < s.len() && !is_boundary(s[i]) {
        word_end(s, i + 1)
    } else {
        i
    }
}

/// One token of the model: its text and its position in the three
/// coordinate systems. Offsets are inclusive: `end_byte` is the index of
/// the last byte of the token and `end_char` the index of its last
/// character.
#[verifier::ext_equal]
pub ghost struct SpecToken {
    pub text: Seq<char>,
    pub start_byte: int,
    pub end_byte: int,
    pub start_char: int,
    pub end_char: int,
    pub index: int,
}

/// The token occupying positions `j` (inclusive) to `e` (exclusive) of `s`,
/// as the `idx`-th token.
pub open spec fn token_at(s: Seq<char>, j: int, e: int, idx: int) -> SpecToken {
    SpecToken {
        text: s.subrange(j, e),
        start_byte: utf8_len(s.take(j)) as int,
        end_byte: utf8_len(s.take(e)) - 1,
        start_char: j,
        end_char: e - 1,
        index: idx,
    }
}

/// The tokens of `s` from position `i` on, numbered from `idx`: each is a
/// maximal run of non-boundary characters.
pub open spec fn spec_tokens_from(s: Seq<char>, i: int, idx: int) -> Seq<SpecToken>
    decreases s.len() - i,
        when 0 <= i <= s.len()
        via spec_tokens_from_decreases
{
    let j = skip_boundaries(s, i);
    if j >= s.len() {
        Seq::empty()
    } else {
        seq![token_at(s, j, word_end(s, j), idx)] + spec_tokens_from(s, word_end(s, j), idx + 1)
    }
}

#[via_fn]
proof fn spec_tokens_from_decreases(s: Seq<char>, i: int, idx: int) {
    lemma_skip_boundaries_bounds(s, i);
    let j = skip_boundaries(s, i);
    if j < s.len() {
        lemma_word_end_bounds(s, j + 1);
        assert(word_end(s, j) == word_end(s, j + 1));
    }
}

/// All tokens of `s`, numbered from zero.
pub open spec fn spec_tokens(s: Seq<char>) -> Seq<SpecToken> {
    spec_tokens_from(s, 0, 0)
}

/// `skip_boundaries` stays inside the sequence, never moves backwards, and
/// stops on a non-boundary character if it stops short of the end.
pub proof fn lemma_skip_boundaries_bounds(s: Seq<char>, i: int)
    requires
        0 <= i <= s.len(),
    ensures
        i <= skip_boundaries(s, i) <= s.len(),
        skip_boundaries(s, i) < s.len() ==> !is_boundary(s[skip_boundaries(s, i)]),
    decreases s.len() - i,
{
    if i < s.len() && is_boundary(s[i]) {
        lemma_skip_boundaries_bounds(s, i + 1);
    }
}

/// `word_end` stays inside the sequence, never moves backwards, stops on a
/// boundary character if it stops short of the end, and every character it
/// passes over is a non-boundary character.
pub proof fn lemma_word_end_bounds(s: Seq<char>, i: int)
    requires
        0 <= i <= s.len(),
    ensures
        i <= word_end(s, i) <= s.len(),
        word_end(s, i) < s.len() ==> is_boundary(s[word_end(s, i)]),
        forall|p: int| i <= p < word_end(s, i) ==> !is_boundary(s[p]),
    decreases s.len() - i,
{
    if i < s.len() && !is_boundary(s[i]) {
        lemma_word_end_bounds(s, i + 1);
    }
}

/// Skipping one boundary character leaves the token sequence unchanged.
pub proof fn lemma_tokens_from_skip(s: Seq<char>, i: int, idx: int)
    requires
        0 <= i < s.len(),
        is_boundary(s[i]),
    ensures
        spec_tokens_from(s, i, idx) == spec_tokens_from(s, i + 1, idx),
{
    assert(skip_boundaries(s, i) == skip_boundaries(s, i + 1));
}

/// Well-formedness of one token of `s`: its text is the slice of `s` its
/// character range names, that slice is free of boundary characters, and
/// its byte offsets are the byte lengths of the corresponding prefixes.
pub open spec fn token_wf(s: Seq<char>, t: SpecToken) -> bool {
    &&& 0 <= t.start_char <= t.end_char < s.len()
    &&& t.text == s.subrange(t.start_char, t.end_char + 1)
    &&& t.text.len() > 0
    &&& (forall|p: int| t.start_char <= p <= t.end_char ==> !is_boundary(s[p]))
    &&& t.start_byte == utf8_len(s.take(t.start_char))
    &&& t.end_byte == utf8_len(s.take(t.end_char + 1)) - 1
}

/// Structure of the modelled token sequence: every token is well formed,
/// indices count up from `idx` without gaps, no token starts before `i`,
/// and consecutive tokens are disjoint and in order.
pub proof fn lemma_tokens_from_props(s: Seq<char>, i: int, idx: int)
    requires
        0 <= i <= s.len(),
    ensures
        forall|m: int|
            0 <= m < spec_tokens_from(s, i, idx).len() ==> token_wf(
                s,
                #[trigger] spec_tokens_from(s, i, idx)[m],
            ),
        forall|m: int|
            0 <= m < spec_tokens_from(s, i, idx).len() ==> (#[trigger] spec_tokens_from(
                s,
                i,
                idx,
            )[m]).index == idx + m,
        forall|m: int|
            0 <= m < spec_tokens_from(s, i, idx).len() ==> i <= (#[trigger] spec_tokens_from(
                s,
                i,
                idx,
            )[m]).start_char,
        forall|m: int|
            0 <= m && m + 1 < spec_tokens_from(s, i, idx).len() ==> (#[trigger] spec_tokens_from(
                s,
                i,
                idx,
            )[m]).end_char < spec_tokens_from(s, i, idx)[m + 1].start_char,
    decreases s.len() - i,
{
    let toks = spec_tokens_from(s, i, idx);
    lemma_skip_boundaries_bounds(s, i);
    let j = skip_boundaries(s, i);
    if j < s.len() {
        let e = word_end(s, j);
        lemma_word_end_bounds(s, j + 1);
        assert(e == word_end(s, j + 1));
        lemma_word_end_bounds(s, j);
        let head = token_at(s, j, e, idx);
        let rest = spec_tokens_from(s, e, idx + 1);
        lemma_tokens_from_props(s, e, idx + 1);
        assert(toks == seq![head] + rest);
        assert(token_wf(s, head)) by {
            assert(head.text.len() == e - j > 0);
        }
        assert forall|m: int| 0 <= m < toks.len() implies token_wf(s, #[trigger] toks[m]) by {
            if m > 0 {
                assert(toks[m] == rest[m - 1]);
            }
        }
        assert forall|m: int| 0 <= m < toks.len() implies (#[trigger] toks[m]).index == idx
            + m by {
            if m > 0 {
                assert(toks[m] == rest[m - 1]);
            }
        }
        assert forall|m: int| 0 <= m < toks.len() implies i <= (#[trigger] toks[m]).start_char by {
            if m > 0 {
                assert(toks[m] == rest[m - 1]);
                assert(e <= rest[m - 1].start_char);
            }
        }
        assert forall|m: int| 0 <= m && m + 1 < toks.len() implies (#[trigger] toks[m]).end_char
            < toks[m + 1].start_char by {
            assert(toks[m + 1] == rest[m]);
            if m == 0 {
                assert(e <= rest[0].start_char);
            } else {
                assert(toks[m] == rest[m - 1]);
            }
        }
    }
}

} // verus!
