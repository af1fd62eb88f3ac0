//! Lexers: a text cut into tokens one after the other, by a token type that
//! knows how to recognise the token a text starts with.
use std::marker::PhantomData;
use vstd::prelude::*;
use vstd::string::StringSliceAdditionalSpecFns;
use vstd::utf8::is_char_boundary;

verus! {

/// Tokens that can be recognised at the start of a text.
pub trait Lex: Sized {
    /// The token the text with the bytes `src` starts with, and the number of
    /// bytes it takes.
    spec fn spec_lex_first(src: Seq<u8>) -> Option<(usize, Self)>;

    /// The token `src` starts with and the number of bytes it takes, which
    /// is positive and ends on a character boundary.
    fn lex_first(src: &str) -> (first: Option<(usize, Self)>)
        ensures
            first == Self::spec_lex_first(src.spec_bytes()),
            first matches Some((step, _)) ==> 0 < step && is_char_boundary(
                src.spec_bytes(),
                step as int,
            ),
    ;

    /// The token `src` starts with, together with the text it takes.
    fn lex_first_span<'a>(src: &'a str) -> (first: Option<(&'a str, Self)>)
        ensures
            match Self::spec_lex_first(src.spec_bytes()) {
                None => first is None,
                Some((step, token)) => first matches Some((span, t)) && t == token
                    && span.spec_bytes() == src.spec_bytes().subrange(0, step as int) && 0
                    < step,
            },
    {
        proof {
            vstd::utf8::encode_utf8_valid_utf8(src@);
        }
        match Self::lex_first(src) {
            None => None,
            Some((step, token)) => {
                let (span, _) = src.split_at(step);
                proof {
                    assert(span.spec_bytes().len() == step);
                }
                Some((span, token))
            },
        }
    }
}

/// Tokens some of which (white space, comments) a parser skips.
pub trait LexFilter: Lex {
    /// Whether the parser looks at the token.
    spec fn spec_significant(&self) -> bool;

    /// Whether the parser looks at the token.
    fn significant(&self) -> (significant: bool)
        ensures
            significant == self.spec_significant(),
    ;
}

/// What a lexer hands out next from the bytes `rest`, and the bytes left:
/// nothing at the end or where no token is recognised (the bytes then stay);
/// else the first token, the bytes going on after it.
pub open spec fn next_of<T: Lex>(rest: Seq<u8>) -> (Option<T>, Seq<u8>) {
    if rest.len() == 0 {
        (None, rest)
    } else {
        match T::spec_lex_first(rest) {
            None => (None, rest),
            Some((step, token)) => (Some(token), rest.skip(step as int)),
        }
    }
}

/// The first significant token from the bytes `rest`, the others skipped,
/// and the bytes left after it; nothing where the text ends or a token is
/// not recognised before a significant one.
pub open spec fn next_significant_of<T: LexFilter>(rest: Seq<u8>) -> (Option<T>, Seq<u8>)
    decreases rest.len(),
{
    match next_of::<T>(rest) {
        (None, left) => (None, left),
        (Some(token), left) => if token.spec_significant() {
            (Some(token), left)
        } else if left.len() < rest.len() {
            next_significant_of::<T>(left)
        } else {
            (None, left)
        },
    }
}

/// The length of a text in bytes.
fn byte_len(src: &str) -> (len: usize)
    ensures
        len == src.spec_bytes().len(),
{
    src.as_bytes().len()
}

/// The tokens of a text, one after the other.
#[derive(Debug)]
pub struct Lexer<'a, T> {
    src: &'a str,
    _phantom: PhantomData<T>,
}

impl<'a, T> Lexer<'a, T> {
    /// The bytes not lexed yet.
    pub closed spec fn rest(&self) -> Seq<u8> {
        self.src.spec_bytes()
    }

    /// A lexer at the start of `src`.
    pub fn new(src: &'a str) -> (lexer: Self)
        ensures
            lexer.rest() == src.spec_bytes(),
    {
        Self { src, _phantom: PhantomData }
    }
}

impl<'a, T: Lex> Lexer<'a, T> {
    /// The next token: none at the end of the text or where no token is
    /// recognised (the text is then left as it is); else the text goes on
    /// after the token.
    pub fn next(&mut self) -> (token: Option<T>)
        ensures
            (token, final(self).rest()) == next_of::<T>(old(self).rest()),
            token is Some ==> final(self).rest().len() < old(self).rest().len(),
    {
        if byte_len(self.src) == 0 {
            return None;
        }
        proof {
            vstd::utf8::encode_utf8_valid_utf8(self.src@);
        }
        match T::lex_first(self.src) {
            None => None,
            Some((step, token)) => {
                let (head, rest) = self.src.split_at(step);
                proof {
                    assert(self.src.spec_bytes() =~= head.spec_bytes() + rest.spec_bytes());
                    assert(head.spec_bytes().len() == step);
                    assert(rest.spec_bytes() =~= self.src.spec_bytes().skip(step as int));
                }
                self.src = rest;
                Some(token)
            },
        }
    }
}

impl<'a, T: LexFilter> Lexer<'a, T> {
    /// The next significant token, the others skipped.
    pub fn next_significant(&mut self) -> (token: Option<T>)
        ensures
            (token, final(self).rest()) == next_significant_of::<T>(old(self).rest()),
    {
        loop
            invariant
                next_significant_of::<T>(self.rest()) == next_significant_of::<T>(old(self).rest()),
            decreases self.rest().len(),
        {
            let ghost before = self.rest();
            match self.next() {
                None => {
                    return None;
                },
                Some(token) => {
                    if token.significant() {
                        return Some(token);
                    }
                },
            }
        }
    }
}

/// The tokens of a text together with the text each takes.
#[derive(Debug)]
pub struct SpanLexer<'a, T> {
    src: &'a str,
    _phantom: PhantomData<T>,
}

impl<'a, T> SpanLexer<'a, T> {
    /// The bytes not lexed yet.
    pub closed spec fn rest(&self) -> Seq<u8> {
        self.src.spec_bytes()
    }

    /// A lexer at the start of `src`.
    pub fn new(src: &'a str) -> (lexer: Self)
        ensures
            lexer.rest() == src.spec_bytes(),
    {
        Self { src, _phantom: PhantomData }
    }
}

impl<'a, T: Lex> SpanLexer<'a, T> {
    /// The next token with its text: none at the end of the text or where
    /// no token is recognised; else the text goes on after the token.
    pub fn next(&mut self) -> (item: Option<(&'a str, T)>)
        ensures
            match next_of::<T>(old(self).rest()) {
                (None, left) => item is None && final(self).rest() == left,
                (Some(token), left) => item matches Some((span, t)) && t == token
                    && final(self).rest() == left && 0 < span.spec_bytes().len() && old(self).rest()
                    == span.spec_bytes() + left,
            },
    {
        if byte_len(self.src) == 0 {
            return None;
        }
        proof {
            vstd::utf8::encode_utf8_valid_utf8(self.src@);
        }
        match T::lex_first(self.src) {
            None => None,
            Some((step, token)) => {
                let (span, rest) = self.src.split_at(step);
                proof {
                    assert(self.src.spec_bytes() =~= span.spec_bytes() + rest.spec_bytes());
                    assert(span.spec_bytes().len() == step);
                    assert(rest.spec_bytes() =~= self.src.spec_bytes().skip(step as int));
                }
                self.src = rest;
                Some((span, token))
            },
        }
    }
}

} // verus!
