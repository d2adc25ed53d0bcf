//! Two-state tokenizer: consumes the annotated character stream and emits
//! one token per pull, in index order, until it signals completion.

use vstd::prelude::*;
use crate::annotator::CharDataIter;
use crate::model::{
    is_boundary, lemma_tokens_from_skip, lemma_word_end_bounds, skip_boundaries,
    spec_tokens_from, token_at, word_end, SpecToken, END_OF_STRING,
};
use crate::unicode::{
    is_whitespace_char, lemma_utf8_len_take_split, lemma_utf8_len_take_step, utf8_byte_width,
    utf8_len,
};

verus! {

/// State of the machine while it scans: between two tokens.
pub const BTWN_TOKS: u8 = 0;

/// State of the machine while it scans: inside a token.
pub const IN_TOKEN: u8 = 1;

/// One maximal run of non-boundary characters, with inclusive byte and
/// character ranges and its 0-based index among all emitted tokens.
pub struct Token {
    pub text: Vec<char>,
    pub byte_offsets: (usize, usize),
    pub char_offsets: (usize, usize),
    pub token_offset: usize,
}

impl View for Token {
    type V = SpecToken;

    open spec fn view(&self) -> SpecToken {
        SpecToken {
            text: self.text@,
            start_byte: self.byte_offsets.0 as int,
            end_byte: self.byte_offsets.1 as int,
            start_char: self.char_offsets.0 as int,
            end_char: self.char_offsets.1 as int,
            index: self.token_offset as int,
        }
    }
}

impl Token {
    /// An empty token buffer, to be filled while the machine is in a token.
    pub fn new() -> (t: Token)
        ensures
            t.text@ == Seq::<char>::empty(),
            t.byte_offsets.0 == 0,
            t.byte_offsets.1 == 0,
            t.char_offsets.0 == 0,
            t.char_offsets.1 == 0,
            t.token_offset == 0,
    {
        Token { text: Vec::new(), byte_offsets: (0, 0), char_offsets: (0, 0), token_offset: 0 }
    }
}

/// Pull-based producer of tokens over an annotated character stream.
pub struct TokenIter {
    pub chdat_stream: CharDataIter,
    pub curr_tok_offset: usize,
    pub state: u8,
}

impl TokenIter {
    /// The raw character sequence underlying the whole pipeline.
    pub open spec fn input(self) -> Seq<char> {
        self.chdat_stream.chars@
    }

    /// The tokens not yet emitted, numbered from the running counter.
    pub open spec fn remaining(self) -> Seq<SpecToken> {
        spec_tokens_from(
            self.input(),
            self.chdat_stream.char_offset as int,
            self.curr_tok_offset as int,
        )
    }

    /// The tokenizer's invariant between pulls: the annotator is well
    /// formed, the machine rests between tokens, and no more tokens have
    /// been emitted than characters consumed.
    pub open spec fn wf(self) -> bool {
        &&& self.chdat_stream.wf()
        &&& self.state == BTWN_TOKS
        &&& self.curr_tok_offset <= self.chdat_stream.char_offset
    }

    /// A fresh tokenizer over an annotated stream, with no token emitted
    /// yet.
    pub fn new(chdats: CharDataIter) -> (r: Self)
        requires
            chdats.wf(),
        ensures
            r.wf(),
            r.input() == chdats.chars@,
            r.curr_tok_offset == 0,
            r.remaining() == spec_tokens_from(chdats.chars@, chdats.char_offset as int, 0),
    {
        TokenIter { chdat_stream: chdats, curr_tok_offset: 0, state: BTWN_TOKS }
    }

    /// A character closes or separates tokens iff it is the end-of-stream
    /// marker or whitespace.
    pub fn is_boundary_char(ch: char) -> (r: bool)
        ensures
            r == is_boundary(ch),
    {
        if ch == END_OF_STRING {
            true
        } else if is_whitespace_char(ch) {
            true
        } else {
            false
        }
    }

    /// Pulls the next token: the first not yet emitted token of the input,
    /// or `None` once — and forever after — all tokens are out.
    #[verifier::loop_isolation(false)]
    pub fn next(&mut self) -> (r: Option<Token>)
        requires
            old(self).wf(),
        ensures
            final(self).wf(),
            final(self).input() == old(self).input(),
            match r {
                Some(tok) => {
                    &&& old(self).remaining().len() > 0
                    &&& tok@ == old(self).remaining()[0]
                    &&& final(self).remaining() == old(self).remaining().skip(1)
                    &&& final(self).curr_tok_offset == old(self).curr_tok_offset + 1
                },
                None => {
                    &&& old(self).remaining().len() == 0
                    &&& final(self).remaining().len() == 0
                    &&& final(self).curr_tok_offset == old(self).curr_tok_offset
                },
            },
    {
        let mut curr_tok = Token::new();
        let ghost s = self.chdat_stream.chars@;
        let ghost k = self.curr_tok_offset as int;
        let ghost rem0 = self.remaining();
        let ghost mut j: int = 0;
        loop
            invariant
                self.chdat_stream.wf(),
                self.chdat_stream.chars@ == s,
                self.curr_tok_offset as int == k,
                k <= self.chdat_stream.char_offset as int,
                self.state == BTWN_TOKS || self.state == IN_TOKEN,
                self.state == BTWN_TOKS ==> {
                    &&& spec_tokens_from(s, self.chdat_stream.char_offset as int, k) == rem0
                    &&& curr_tok.text@ == Seq::<char>::empty()
                },
                self.state == IN_TOKEN ==> {
                    let pos = self.chdat_stream.char_offset as int;
                    &&& 0 <= k <= j < pos <= s.len()
                    &&& !is_boundary(s[j])
                    &&& rem0 == seq![token_at(s, j, word_end(s, j), k)] + spec_tokens_from(
                        s,
                        word_end(s, j),
                        k + 1,
                    )
                    &&& word_end(s, j) == word_end(s, pos)
                    &&& curr_tok.text@ == s.subrange(j, pos)
                    &&& curr_tok.token_offset as int == k
                    &&& curr_tok.byte_offsets.0 == utf8_len(s.take(j))
                    &&& curr_tok.byte_offsets.1 as int == utf8_len(s.take(pos)) - 1
                    &&& curr_tok.char_offsets.0 == j
                    &&& curr_tok.char_offsets.1 as int == pos - 1
                    &&& !self.chdat_stream.really_done
                },
            decreases self.chdat_stream.pulls_left(),
        {
            let ghost pos = self.chdat_stream.char_offset as int;
            match self.chdat_stream.next() {
                Some(cd) => {
                    if TokenIter::is_boundary_char(cd.ch) {
                        if self.state == IN_TOKEN {
                            // The boundary closes the token under construction.
                            proof {
                                let e = word_end(s, j);
                                if cd.ch == END_OF_STRING {
                                    assert(pos == s.len());
                                    assert(e == pos);
                                } else {
                                    assert(is_boundary(s[pos]));
                                    assert(e == pos);
                                    lemma_tokens_from_skip(s, pos, k + 1);
                                }
                                assert(curr_tok@ == token_at(s, j, e, k));
                                assert(rem0[0] == token_at(s, j, e, k));
                                assert(rem0.skip(1) =~= spec_tokens_from(s, e, k + 1));
                            }
                            self.state = BTWN_TOKS;
                            self.curr_tok_offset = self.curr_tok_offset + 1;
                            return Some(curr_tok);
                        }
                        // Otherwise skip the boundary character.
                        proof {
                            if cd.ch != END_OF_STRING {
                                assert(is_boundary(s[pos]));
                                lemma_tokens_from_skip(s, pos, k);
                            }
                        }
                    } else {
                        if self.state == BTWN_TOKS {
                            // The first character of a new token: record its
                            // start offsets and index.
                            curr_tok.token_offset = self.curr_tok_offset;
                            curr_tok.byte_offsets = (cd.byte_offset, curr_tok.byte_offsets.1);
                            curr_tok.char_offsets = (cd.char_offset, curr_tok.char_offsets.1);
                            self.state = IN_TOKEN;
                            proof {
                                j = pos;
                                assert(!is_boundary(s[pos]));
                                assert(skip_boundaries(s, pos) == pos);
                                lemma_word_end_bounds(s, pos);
                                assert(spec_tokens_from(s, pos, k) == seq![
                                    token_at(s, pos, word_end(s, pos), k),
                                ] + spec_tokens_from(s, word_end(s, pos), k + 1));
                            }
                        }
                        // Accumulate the character and move the inclusive end
                        // offsets onto it.
                        proof {
                            lemma_utf8_len_take_step(s, pos);
                            lemma_utf8_len_take_split(s, pos + 1, s.len() as int);
                            assert(s.take(s.len() as int) =~= s);
                        }
                        curr_tok.text.push(cd.ch);
                        let w = utf8_byte_width(cd.ch);
                        curr_tok.byte_offsets = (
                            curr_tok.byte_offsets.0,
                            cd.byte_offset + w - 1,
                        );
                        curr_tok.char_offsets = (curr_tok.char_offsets.0, cd.char_offset);
                        proof {
                            assert(curr_tok.text@ =~= s.subrange(j, pos + 1));
                            assert(word_end(s, pos) == word_end(s, pos + 1));
                        }
                    }
                },
                None => {
                    // The annotator answers None only after the marker has
                    // been consumed, which can happen only between tokens.
                    proof {
                        assert(self.state == BTWN_TOKS);
                        assert(self.chdat_stream.char_offset == s.len());
                        assert(skip_boundaries(s, s.len() as int) == s.len());
                        assert(rem0 == Seq::<SpecToken>::empty());
                    }
                    return None;
                },
            }
        }
    }
}

/// Runs the whole pipeline over a character sequence: annotates it, pulls
/// every token, and returns them in order. The result is exactly the
/// modelled token sequence of the input.
#[verifier::loop_isolation(false)]
pub fn tokenize(chs: Vec<char>) -> (toks: Vec<Token>)
    requires
        utf8_len(chs@) <= usize::MAX,
        forall|p: int| 0 <= p < chs@.len() ==> chs@[p] != END_OF_STRING,
    ensures
        toks@.len() == crate::model::spec_tokens(chs@).len(),
        forall|m: int| 0 <= m < toks@.len() ==> (#[trigger] toks@[m])@ == crate::model::spec_tokens(
            chs@,
        )[m],
{
    let ghost s = chs@;
    let ghost all = crate::model::spec_tokens(s);
    let chds = CharDataIter::new(chs);
    let mut toks_iter = TokenIter::new(chds);
    let mut out: Vec<Token> = Vec::new();
    proof {
        assert(all.skip(0) =~= all);
    }
    loop
        invariant
            toks_iter.wf(),
            toks_iter.input() == s,
            out@.len() <= all.len(),
            toks_iter.curr_tok_offset as int == out@.len(),
            toks_iter.remaining() == all.skip(out@.len() as int),
            forall|m: int| 0 <= m < out@.len() ==> (#[trigger] out@[m])@ == all[m],
        decreases all.len() - out@.len(),
    {
        match toks_iter.next() {
            Some(tok) => {
                proof {
                    assert(all.skip(out@.len() as int)[0] == all[out@.len() as int]);
                    assert(all.skip(out@.len() as int).skip(1) =~= all.skip(out@.len() as int + 1));
                }
                out.push(tok);
            },
            None => {
                return out;
            },
        }
    }
}

} // verus!
