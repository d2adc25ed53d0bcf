use tokstream::annotator::CharDataIter;
use tokstream::tokenizer::{tokenize, Token, TokenIter};

fn toks(s: &str) -> Vec<Token> {
    tokenize(s.chars().collect())
}

fn text_of(t: &Token) -> String {
    t.text.iter().collect()
}

#[test]
fn empty_input_yields_no_tokens() {
    let out = toks("");
    assert_eq!(out.len(), 0);
}

#[test]
fn empty_input_signals_completion_immediately() {
    let chds = CharDataIter::new(Vec::new());
    let mut ti = TokenIter::new(chds);
    assert!(ti.next().is_none());
    assert!(ti.next().is_none());
}

#[test]
fn single_word_hello() {
    let out = toks("hello");
    assert_eq!(out.len(), 1);
    assert_eq!(text_of(&out[0]), "hello");
    assert_eq!(out[0].char_offsets, (0, 4));
    assert_eq!(out[0].byte_offsets, (0, 4));
    assert_eq!(out[0].token_offset, 0);
}

#[test]
fn surrounding_whitespace_produces_no_tokens() {
    let out = toks("  hello   world  ");
    assert_eq!(out.len(), 2);
    assert_eq!(text_of(&out[0]), "hello");
    assert_eq!(out[0].token_offset, 0);
    assert_eq!(text_of(&out[1]), "world");
    assert_eq!(out[1].token_offset, 1);
}

#[test]
fn multibyte_character_offsets() {
    let out = toks("\u{e9} x");
    assert_eq!(out.len(), 2);
    assert_eq!(text_of(&out[0]), "\u{e9}");
    assert_eq!(out[0].byte_offsets.0, 0);
    assert_eq!(out[0].char_offsets.0, 0);
    assert_eq!(text_of(&out[1]), "x");
    assert_eq!(out[1].byte_offsets.0, 3);
    assert_eq!(out[1].char_offsets.0, 2);
}

#[test]
fn single_char_no_trailing_whitespace() {
    let chds = CharDataIter::new("a".chars().collect());
    let mut ti = TokenIter::new(chds);
    let t = ti.next().expect("one token");
    assert_eq!(text_of(&t), "a");
    assert_eq!(t.byte_offsets, (0, 0));
    assert_eq!(t.char_offsets, (0, 0));
    assert_eq!(t.token_offset, 0);
    assert!(ti.next().is_none());
}

#[test]
fn inclusive_byte_range_extracts_text() {
    let input = "p\u{e9}re no\u{eb}l  \u{3042}\u{3044} x";
    let out = toks(input);
    assert!(out.len() > 0);
    let bytes = input.as_bytes();
    for t in &out {
        let (b0, b1) = t.byte_offsets;
        let slice = &bytes[b0..=b1];
        assert_eq!(slice, text_of(t).as_bytes());
    }
}

#[test]
fn indices_are_contiguous() {
    let out = toks("one two\tthree\nfour   five");
    assert_eq!(out.len(), 5);
    for (m, t) in out.iter().enumerate() {
        assert_eq!(t.token_offset, m);
    }
}

#[test]
fn consecutive_tokens_do_not_overlap() {
    let out = toks("aa b\u{e9}\u{e9}  cc\u{3042} d");
    assert!(out.len() >= 2);
    for w in out.windows(2) {
        assert!(w[0].byte_offsets.1 < w[1].byte_offsets.0);
        assert!(w[0].char_offsets.1 < w[1].char_offsets.0);
    }
}

#[test]
fn no_empty_tokens_on_collapsed_whitespace() {
    let out = toks(" \t\n  a  \r\n b \u{2003}\u{2000} ");
    assert_eq!(out.len(), 2);
    for t in &out {
        assert!(!t.text.is_empty());
    }
}

#[test]
fn sentinel_never_appears_in_token_text() {
    let out = toks("alpha beta\tgamma");
    assert!(out.len() == 3);
    for t in &out {
        assert!(t.text.iter().all(|&c| c != '\0'));
    }
}

#[test]
fn unicode_whitespace_separates_tokens() {
    let out = toks("a\u{00a0}b\u{2028}c\u{3000}d");
    assert_eq!(out.len(), 4);
    let texts: Vec<String> = out.iter().map(text_of).collect();
    assert_eq!(texts, vec!["a", "b", "c", "d"]);
}

#[test]
fn boundary_classification() {
    assert!(TokenIter::is_boundary_char('\0'));
    assert!(TokenIter::is_boundary_char(' '));
    assert!(TokenIter::is_boundary_char('\t'));
    assert!(TokenIter::is_boundary_char('\u{2009}'));
    assert!(!TokenIter::is_boundary_char('x'));
    assert!(!TokenIter::is_boundary_char('\u{e9}'));
    assert!(!TokenIter::is_boundary_char('_'));
}

#[test]
fn empty_token_buffer_starts_zeroed() {
    let t = Token::new();
    assert!(t.text.is_empty());
    assert_eq!(t.byte_offsets, (0, 0));
    assert_eq!(t.char_offsets, (0, 0));
    assert_eq!(t.token_offset, 0);
}

#[test]
fn annotator_records_and_sentinel() {
    let mut it = CharDataIter::new("a\u{e9}b".chars().collect());
    let r0 = it.next().expect("record");
    assert_eq!(r0.ch, 'a');
    assert_eq!(r0.byte_offset, 0);
    assert_eq!(r0.char_offset, 0);
    let r1 = it.next().expect("record");
    assert_eq!(r1.ch, '\u{e9}');
    assert_eq!(r1.byte_offset, 1);
    assert_eq!(r1.char_offset, 1);
    let r2 = it.next().expect("record");
    assert_eq!(r2.ch, 'b');
    assert_eq!(r2.byte_offset, 3);
    assert_eq!(r2.char_offset, 2);
    let sentinel = it.next().expect("sentinel record");
    assert_eq!(sentinel.ch, '\0');
    assert_eq!(sentinel.byte_offset, 4);
    assert_eq!(sentinel.char_offset, 3);
    assert!(it.next().is_none());
    assert!(it.next().is_none());
}

#[test]
fn pulls_after_completion_keep_signalling_completion() {
    let chds = CharDataIter::new("one two".chars().collect());
    let mut ti = TokenIter::new(chds);
    assert!(ti.next().is_some());
    assert!(ti.next().is_some());
    assert!(ti.next().is_none());
    assert!(ti.next().is_none());
    assert!(ti.next().is_none());
}

#[test]
fn four_byte_characters_count_correctly() {
    let out = toks("\u{1f600}\u{1f601} z");
    assert_eq!(out.len(), 2);
    assert_eq!(text_of(&out[0]), "\u{1f600}\u{1f601}");
    assert_eq!(out[0].byte_offsets, (0, 7));
    assert_eq!(out[0].char_offsets, (0, 1));
    assert_eq!(out[1].byte_offsets.0, 9);
    assert_eq!(out[1].char_offsets.0, 3);
}
