//! The fragment of Unicode that tokenization depends on: the UTF-8 byte
//! width of a character, the UTF-8 encoding of a character sequence, and the
//! White_Space property used to classify boundary characters.

use vstd::prelude::*;

verus! {

/// Number of bytes the UTF-8 encoding of one character occupies.
pub open spec fn utf8_len_char(c: char) -> nat {
    if (c as u32) < 0x80 {
        1
    } else if (c as u32) < 0x800 {
        2
    } else if (c as u32) < 0x10000 {
        3
    } else {
        4
    }
}

/// The UTF-8 encoding of one character.
pub open spec fn utf8_encode_char(c: char) -> Seq<u8> {
    let u = c as u32;
    if u < 0x80 {
        seq![u as u8]
    } else if u < 0x800 {
        seq![(0xC0 + u / 0x40) as u8, (0x80 + u % 0x40) as u8]
    } else if u < 0x10000 {
        seq![
            (0xE0 + u / 0x1000) as u8,
            (0x80 + (u / 0x40) % 0x40) as u8,
            (0x80 + u % 0x40) as u8,
        ]
    } else {
        seq![
            (0xF0 + u / 0x40000) as u8,
            (0x80 + (u / 0x1000) % 0x40) as u8,
            (0x80 + (u / 0x40) % 0x40) as u8,
            (0x80 + u % 0x40) as u8,
        ]
    }
}

/// The UTF-8 encoding of a character sequence.
pub open spec fn utf8_encode(s: Seq<char>) -> Seq<u8>
    decreases s.len(),
{
    if s.len() == 0 {
        Seq::empty()
    } else {
        utf8_encode_char(s[0]) + utf8_encode(s.skip(1))
    }
}

/// Number of bytes the UTF-8 encoding of a character sequence occupies.
pub open spec fn utf8_len(s: Seq<char>) -> nat
    decreases s.len(),
{
    if s.len() == 0 {
        0
    } else {
        utf8_len_char(s[0]) + utf8_len(s.skip(1))
    }
}

/// The Unicode White_Space property, written out over the code point.
pub open spec fn is_unicode_whitespace(c: char) -> bool {
    let u = c as u32;
    ||| u == 0x20
    ||| (0x09 <= u && u <= 0x0D)
    ||| u == 0x85
    ||| u == 0xA0
    ||| u == 0x1680
    ||| (0x2000 <= u && u <= 0x200A)
    ||| u == 0x2028
    ||| u == 0x2029
    ||| u == 0x202F
    ||| u == 0x205F
    ||| u == 0x3000
}

/// UTF-8 byte width of one character, computed from its code point.
pub fn utf8_byte_width(c: char) -> (n: usize)
    ensures
        n == utf8_len_char(c),
        1 <= n <= 4,
{
    let u = c as u32;
    if u < 0x80 {
        1
    } else if u < 0x800 {
        2
    } else if u < 0x10000 {
        3
    } else {
        4
    }
}

/// Whether a character has the Unicode White_Space property.
pub fn is_whitespace_char(c: char) -> (r: bool)
    ensures
        r == is_unicode_whitespace(c),
{
    let u = c as u32;
    u == 0x20 || (0x09 <= u && u <= 0x0D) || u == 0x85 || u == 0xA0 || u == 0x1680 || (0x2000
        <= u && u <= 0x200A) || u == 0x2028 || u == 0x2029 || u == 0x202F || u == 0x205F || u
        == 0x3000
}

/// The encoding of one character is as long as its byte width says.
pub proof fn lemma_utf8_encode_char_len(c: char)
    ensures
        utf8_encode_char(c).len() == utf8_len_char(c),
{
}

/// The encoding of a sequence is as long as its byte length says.
pub proof fn lemma_utf8_encode_len(s: Seq<char>)
    ensures
        utf8_encode(s).len() == utf8_len(s),
    decreases s.len(),
{
    if s.len() > 0 {
        lemma_utf8_encode_char_len(s[0]);
        lemma_utf8_encode_len(s.skip(1));
    }
}

/// Encoding distributes over concatenation.
pub proof fn lemma_utf8_encode_concat(a: Seq<char>, b: Seq<char>)
    ensures
        utf8_encode(a + b) == utf8_encode(a) + utf8_encode(b),
    decreases a.len(),
{
    if a.len() == 0 {
        assert(a + b =~= b);
        assert(utf8_encode(a) + utf8_encode(b) =~= utf8_encode(b));
    } else {
        assert((a + b).skip(1) =~= a.skip(1) + b);
        lemma_utf8_encode_concat(a.skip(1), b);
        assert(utf8_encode(a + b) =~= utf8_encode(a) + utf8_encode(b));
    }
}

/// Byte length distributes over concatenation.
pub proof fn lemma_utf8_len_concat(a: Seq<char>, b: Seq<char>)
    ensures
        utf8_len(a + b) == utf8_len(a) + utf8_len(b),
    decreases a.len(),
{
    if a.len() == 0 {
        assert(a + b =~= b);
    } else {
        assert((a + b).skip(1) =~= a.skip(1) + b);
        lemma_utf8_len_concat(a.skip(1), b);
    }
}

/// The byte length of a prefix splits at any interior point.
pub proof fn lemma_utf8_len_take_split(s: Seq<char>, i: int, j: int)
    requires
        0 <= i <= j <= s.len(),
    ensures
        utf8_len(s.take(j)) == utf8_len(s.take(i)) + utf8_len(s.subrange(i, j)),
{
    assert(s.take(j) =~= s.take(i) + s.subrange(i, j));
    lemma_utf8_len_concat(s.take(i), s.subrange(i, j));
}

/// Consuming one more character adds exactly its byte width to the prefix
/// byte length.
pub proof fn lemma_utf8_len_take_step(s: Seq<char>, i: int)
    requires
        0 <= i < s.len(),
    ensures
        utf8_len(s.take(i + 1)) == utf8_len(s.take(i)) + utf8_len_char(s[i]),
{
    lemma_utf8_len_take_split(s, i, i + 1);
    assert(s.subrange(i, i + 1) =~= seq![s[i]]);
    assert(seq![s[i]].skip(1) =~= Seq::<char>::empty());
    assert(utf8_len(seq![s[i]]) == utf8_len_char(s[i]) + utf8_len(seq![s[i]].skip(1)));
    assert(utf8_len(seq![s[i]].skip(1)) == 0);
}

/// The byte range of a character slice picks out exactly the encoding of
/// that slice from the encoding of the whole sequence.
pub proof fn lemma_utf8_encode_slice(s: Seq<char>, i: int, j: int)
    requires
        0 <= i <= j <= s.len(),
    ensures
        utf8_encode(s).subrange(
            utf8_len(s.take(i)) as int,
            utf8_len(s.take(j)) as int,
        ) == utf8_encode(s.subrange(i, j)),
{
    let x = utf8_encode(s.take(i));
    let y = utf8_encode(s.subrange(i, j));
    let z = utf8_encode(s.skip(j));
    assert(s =~= s.take(j) + s.skip(j));
    assert(s.take(j) =~= s.take(i) + s.subrange(i, j));
    lemma_utf8_encode_concat(s.take(j), s.skip(j));
    lemma_utf8_encode_concat(s.take(i), s.subrange(i, j));
    lemma_utf8_encode_len(s.take(i));
    lemma_utf8_encode_len(s.subrange(i, j));
    lemma_utf8_len_take_split(s, i, j);
    assert(utf8_encode(s) == x + y + z);
    assert((x + y + z).subrange(x.len() as int, (x.len() + y.len()) as int) =~= y);
}

} // verus!
