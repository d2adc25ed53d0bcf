//! Positional character annotator: a pull-based stage that hands out each
//! input character together with its byte and character offsets, followed by
//! exactly one end-of-stream marker record carrying the final totals.

use vstd::prelude::*;
use crate::model::END_OF_STRING;
use crate::unicode::{utf8_byte_width, utf8_len, utf8_len_char};

verus! {

/// One input character (or the end-of-stream marker) with the byte offset
/// and character offset of everything strictly before it.
pub struct CharData {
    pub ch: char,
    pub byte_offset: usize,
    pub char_offset: usize,
}

/// Annotates a finite character sequence with running offsets. Pulling
/// yields one record per character, then one end-of-stream record, then
/// nothing forever.
pub struct CharDataIter {
    pub chars: Vec<char>,
    pub byte_offset: usize,
    pub char_offset: usize,
    pub really_done: bool,
}

impl CharDataIter {
    /// The annotator's invariant: the character offset counts the consumed
    /// prefix, the byte offset is that prefix's UTF-8 length, the whole
    /// input fits in the byte counter, the reserved marker is not real
    /// data, and the marker is emitted only at the very end.
    pub open spec fn wf(self) -> bool {
        &&& self.char_offset <= self.chars.len()
        &&& self.byte_offset == utf8_len(self.chars@.take(self.char_offset as int))
        &&& utf8_len(self.chars@) <= usize::MAX
        &&& (self.really_done ==> self.char_offset == self.chars.len())
        &&& (forall|p: int| 0 <= p < self.chars@.len() ==> self.chars@[p] != END_OF_STRING)
    }

    /// How many pulls this annotator can still answer with a record.
    pub open spec fn pulls_left(self) -> int {
        self.chars@.len() - self.char_offset + if self.really_done {
            0int
        } else {
            1int
        }
    }

    /// A fresh annotator over `chs`, positioned before the first character.
    pub fn new(chs: Vec<char>) -> (r: Self)
        requires
            utf8_len(chs@) <= usize::MAX,
            forall|p: int| 0 <= p < chs@.len() ==> chs@[p] != END_OF_STRING,
        ensures
            r.wf(),
            r.chars@ == chs@,
            r.char_offset == 0,
            r.byte_offset == 0,
            !r.really_done,
    {
        proof {
            assert(chs@.take(0) =~= Seq::<char>::empty());
        }
        CharDataIter { chars: chs, byte_offset: 0, char_offset: 0, really_done: false }
    }

    /// Pulls the next record. While characters remain, the record carries
    /// the next character with the offsets of the prefix before it; once
    /// they are exhausted, a single record carries the end-of-stream marker
    /// and the final totals; after that, nothing.
    pub fn next(&mut self) -> (r: Option<CharData>)
        requires
            old(self).wf(),
        ensures
            final(self).wf(),
            final(self).chars@ == old(self).chars@,
            old(self).char_offset < old(self).chars@.len() ==> ({
                let c = old(self).chars@[old(self).char_offset as int];
                &&& r matches Some(cd)
                &&& cd.ch == c
                &&& cd.ch != END_OF_STRING
                &&& cd.byte_offset == old(self).byte_offset
                &&& cd.char_offset == old(self).char_offset
                &&& final(self).char_offset == old(self).char_offset + 1
                &&& final(self).byte_offset == old(self).byte_offset + utf8_len_char(c)
                &&& final(self).really_done == old(self).really_done
            }),
            (old(self).char_offset == old(self).chars@.len() && !old(self).really_done) ==> ({
                &&& r matches Some(cd)
                &&& cd.ch == END_OF_STRING
                &&& cd.byte_offset == old(self).byte_offset
                &&& cd.byte_offset == utf8_len(old(self).chars@)
                &&& cd.char_offset == old(self).chars@.len()
                &&& final(self).char_offset == old(self).char_offset
                &&& final(self).byte_offset == old(self).byte_offset
                &&& final(self).really_done
            }),
            (old(self).char_offset == old(self).chars@.len() && old(self).really_done) ==> ({
                &&& r is None
                &&& *final(self) == *old(self)
            }),
    {
        if self.char_offset < self.chars.len() {
            let c = self.chars[self.char_offset];
            let result = CharData {
                ch: c,
                byte_offset: self.byte_offset,
                char_offset: self.char_offset,
            };
            proof {
                crate::unicode::lemma_utf8_len_take_step(self.chars@, self.char_offset as int);
                crate::unicode::lemma_utf8_len_take_split(
                    self.chars@,
                    self.char_offset + 1,
                    self.chars@.len() as int,
                );
                assert(self.chars@.take(self.chars@.len() as int) =~= self.chars@);
            }
            self.char_offset = self.char_offset + 1;
            self.byte_offset = self.byte_offset + utf8_byte_width(c);
            Some(result)
        } else if self.really_done {
            None
        } else {
            self.really_done = true;
            proof {
                assert(self.chars@.take(self.chars@.len() as int) =~= self.chars@);
            }
            Some(CharData {
                ch: END_OF_STRING,
                byte_offset: self.byte_offset,
                char_offset: self.char_offset,
            })
        }
    }
}

} // verus!
