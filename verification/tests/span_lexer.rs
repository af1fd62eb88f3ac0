use butter::lexer::{Lex, LexFilter, Lexer, SpanLexer};
use butter::span::{span_from_spans, Span};
use vstd::seq::Seq;

#[derive(Debug, PartialEq, Eq, Clone, Copy)]
enum Token {
    Word,
    Space,
}

impl Lex for Token {
    // Only read by the verifier; compiled code never calls it.
    fn spec_lex_first(_src: Seq<u8>) -> Option<(usize, Self)> {
        unreachable!()
    }

    fn lex_first(src: &str) -> Option<(usize, Self)> {
        let first = src.chars().next()?;
        let space = first == ' ';
        let len: usize = src
            .chars()
            .take_while(|c| (*c == ' ') == space && !c.is_ascii_punctuation())
            .map(char::len_utf8)
            .sum();
        if len == 0 {
            None
        } else if space {
            Some((len, Token::Space))
        } else {
            Some((len, Token::Word))
        }
    }
}

impl LexFilter for Token {
    fn significant(&self) -> bool {
        *self != Token::Space
    }

    // Only read by the verifier; compiled code never calls it.
    fn spec_significant(&self) -> bool {
        unreachable!()
    }
}

#[test]
fn lexer_cuts_tokens() {
    let mut lexer: Lexer<Token> = Lexer::new("ab  c");
    assert_eq!(lexer.next(), Some(Token::Word));
    assert_eq!(lexer.next(), Some(Token::Space));
    assert_eq!(lexer.next(), Some(Token::Word));
    assert_eq!(lexer.next(), None);
    let mut lexer: Lexer<Token> = Lexer::new("ab  c");
    assert_eq!(lexer.next_significant(), Some(Token::Word));
    assert_eq!(lexer.next_significant(), Some(Token::Word));
    assert_eq!(lexer.next_significant(), None);
    let mut lexer: Lexer<Token> = Lexer::new("a!");
    assert_eq!(lexer.next(), Some(Token::Word));
    assert_eq!(lexer.next(), None);
    assert_eq!(lexer.next(), None);
}

#[test]
fn span_lexer_gives_texts() {
    let mut lexer: SpanLexer<Token> = SpanLexer::new("héllo wörld");
    assert_eq!(lexer.next(), Some(("héllo", Token::Word)));
    assert_eq!(lexer.next(), Some((" ", Token::Space)));
    assert_eq!(lexer.next(), Some(("wörld", Token::Word)));
    assert_eq!(lexer.next(), None);
    assert_eq!(Token::lex_first_span("ab cd"), Some(("ab", Token::Word)));
}

#[test]
fn spans_joined() {
    let src = "let x = 10;";
    let left = Span { start: 4, len: 1 };
    let right = Span { start: 8, len: 2 };
    assert_eq!(span_from_spans(src, left, right), "x = 10");
    assert_eq!(span_from_spans(src, right, right), "10");
}
