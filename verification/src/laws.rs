//! Laws that hold of the tokens of every input: exact substring
//! extraction, index contiguity, non-overlap and order, absence of empty
//! tokens, and invisibility of the end-of-stream marker.

use vstd::prelude::*;
use crate::model::{
    is_boundary, lemma_tokens_from_props, spec_tokens, token_wf, END_OF_STRING,
};
use crate::unicode::{
    lemma_utf8_encode_slice, lemma_utf8_len_take_split, utf8_encode, utf8_len,
};

verus! {

/// Every token of an input is well formed: its text is exactly the slice
/// of the input its character range names, and its byte offsets are the
/// byte lengths of the corresponding input prefixes.
pub proof fn lemma_tokens_wf(s: Seq<char>)
    ensures
        forall|m: int|
            0 <= m < spec_tokens(s).len() ==> token_wf(s, #[trigger] spec_tokens(s)[m]),
{
    lemma_tokens_from_props(s, 0, 0);
}

/// Extracting the inclusive byte range `[start_byte, end_byte]` of any
/// token from the UTF-8 encoding of the input reproduces exactly the
/// encoding of that token's text.
pub proof fn lemma_token_substring_exact(s: Seq<char>)
    ensures
        forall|m: int|
            0 <= m < spec_tokens(s).len() ==> utf8_encode(s).subrange(
                (#[trigger] spec_tokens(s)[m]).start_byte,
                spec_tokens(s)[m].end_byte + 1,
            ) == utf8_encode(spec_tokens(s)[m].text),
{
    lemma_tokens_from_props(s, 0, 0);
    assert forall|m: int| 0 <= m < spec_tokens(s).len() implies utf8_encode(s).subrange(
        (#[trigger] spec_tokens(s)[m]).start_byte,
        spec_tokens(s)[m].end_byte + 1,
    ) == utf8_encode(spec_tokens(s)[m].text) by {
        let t = spec_tokens(s)[m];
        assert(token_wf(s, t));
        lemma_utf8_len_take_split(s, t.start_char, t.end_char + 1);
        lemma_utf8_encode_slice(s, t.start_char, t.end_char + 1);
    }
}

/// Emitted token indices are exactly `0, 1, 2, ...` with no gaps or
/// repeats.
pub proof fn lemma_index_contiguity(s: Seq<char>)
    ensures
        forall|m: int| 0 <= m < spec_tokens(s).len() ==> (#[trigger] spec_tokens(s)[m]).index
            == m,
{
    lemma_tokens_from_props(s, 0, 0);
}

/// Consecutive tokens neither overlap nor come out of order: each ends, in
/// bytes as in characters, strictly before the next one starts.
pub proof fn lemma_non_overlap(s: Seq<char>)
    ensures
        forall|m: int|
            0 <= m && m + 1 < spec_tokens(s).len() ==> (#[trigger] spec_tokens(s)[m]).end_char
                < spec_tokens(s)[m + 1].start_char,
        forall|m: int|
            0 <= m && m + 1 < spec_tokens(s).len() ==> (#[trigger] spec_tokens(s)[m]).end_byte
                < spec_tokens(s)[m + 1].start_byte,
{
    lemma_tokens_from_props(s, 0, 0);
    assert forall|m: int| 0 <= m && m + 1 < spec_tokens(s).len() implies (
    #[trigger] spec_tokens(s)[m]).end_byte < spec_tokens(s)[m + 1].start_byte by {
        let a = spec_tokens(s)[m];
        let b = spec_tokens(s)[m + 1];
        assert(token_wf(s, a));
        assert(token_wf(s, b));
        lemma_utf8_len_take_split(s, a.end_char + 1, b.start_char);
    }
}

/// No emitted token has empty text.
pub proof fn lemma_no_empty_tokens(s: Seq<char>)
    ensures
        forall|m: int| 0 <= m < spec_tokens(s).len() ==> (#[trigger] spec_tokens(s)[m]).text.len()
            > 0,
{
    lemma_tokens_from_props(s, 0, 0);
}

/// The end-of-stream marker never appears inside any token's text, for any
/// input whatever.
pub proof fn lemma_sentinel_invisible(s: Seq<char>)
    ensures
        forall|m: int, q: int|
            0 <= m < spec_tokens(s).len() && 0 <= q < spec_tokens(s)[m].text.len()
                ==> #[trigger] spec_tokens(s)[m].text[q] != END_OF_STRING,
{
    lemma_tokens_from_props(s, 0, 0);
    assert forall|m: int, q: int|
        0 <= m < spec_tokens(s).len() && 0 <= q < spec_tokens(s)[m].text.len()
        implies #[trigger] spec_tokens(s)[m].text[q] != END_OF_STRING by {
        let t = spec_tokens(s)[m];
        assert(token_wf(s, t));
        assert(t.text[q] == s[t.start_char + q]);
        assert(!is_boundary(s[t.start_char + q]));
    }
}

} // verus!
