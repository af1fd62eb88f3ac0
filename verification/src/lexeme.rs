//! The lexical layer of the expression grammar: what separates tokens, and
//! the tokens that are read without looking into nested expressions
//! (identifiers, keywords, literals, operators).
//!
//! A parser reads from a position of a text. It either succeeds with a value
//! and the position where it stopped, or fails; a failure records whether the
//! parser had consumed input before it failed. A failure without consumed
//! input lets the next alternative of a choice be tried; one with consumed
//! input ends the choice.
use crate::ident_keyword::{ident, is_keyword, is_rest, rest_end, word_len};
use crate::number::{
    alphanumeric, integer_literal, integer_u64, is_alphanumeric, is_digit_of, prefix_base, run_end,
    strip_underscores,
};
use crate::expr::{literal_view, Literal, LiteralV};
use crate::operator::{BinaryType, BoundType};
use crate::pretty_print::{is_white_space, is_white_space_char};
use vstd::prelude::*;

verus! {

/// The outcome of a parser in the model: the value and the position after
/// it, or a failure that records whether input was consumed.
pub enum Parsed<B> {
    Done(B, int),
    Fail(bool),
}

/// The outcome of a parser: the value and the position after it, or a
/// failure that records whether input was consumed.
#[derive(Debug, PartialEq, Eq)]
pub enum Step<A> {
    Done(A, usize),
    Fail(bool),
}

/// The outcome `r` is the outcome `m` of the model, its value seen through
/// `f`.
pub open spec fn agrees<A, B>(r: Step<A>, m: Parsed<B>, f: spec_fn(A) -> B) -> bool {
    match r {
        Step::Done(a, q) => m == Parsed::Done(f(a), q as int),
        Step::Fail(c) => m == Parsed::<B>::Fail(c),
    }
}

/// A successful outcome stops after `p` and not beyond the end `n`.
pub open spec fn advances<B>(m: Parsed<B>, p: int, n: int) -> bool {
    m matches Parsed::Done(_, q) ==> p < q <= n
}

/// A successful outcome stops at `p` or after it, not beyond the end `n`.
pub open spec fn stays_within<B>(m: Parsed<B>, p: int, n: int) -> bool {
    m matches Parsed::Done(_, q) ==> p <= q <= n
}

/// `s[p]` is `c`.
pub open spec fn at(s: Seq<char>, p: int, c: char) -> bool {
    0 <= p < s.len() && s[p] == c
}

/// Whether `c` is white space: the characters of the Unicode property
/// White_Space, as `char::is_whitespace` tells them.
pub open spec fn whitespace(c: char) -> bool {
    is_white_space(c)
}

/// Whether `c` is white space. Among ASCII characters those are tab, line
/// feed, vertical tab, form feed, carriage return and space.
pub(crate) fn is_whitespace(c: char) -> (b: bool)
    ensures
        b == whitespace(c),
        (c as u32) < 128 ==> (b <==> ((9 <= (c as u32) && (c as u32) <= 13) || c == ' ')),
{
    is_white_space_char(c)
}

/// The position after the white space and `--` comments (each up to the end
/// of its line) that start at `p`.
pub open spec fn ws_end(s: Seq<char>, p: int) -> int
    decreases s.len() - p, 0int,
{
    if 0 <= p < s.len() && whitespace(s[p]) {
        ws_end(s, p + 1)
    } else if 0 <= p && p + 1 < s.len() && s[p] == '-' && s[p + 1] == '-' {
        comment_end(s, p + 2)
    } else {
        p
    }
}

/// The position after the rest of a comment from `p` and what follows it.
pub open spec fn comment_end(s: Seq<char>, p: int) -> int
    decreases s.len() - p, 1int,
{
    if 0 <= p < s.len() && s[p] != '\n' {
        comment_end(s, p + 1)
    } else {
        ws_end(s, p)
    }
}

/// Skipping white space and comments does not go back, nor beyond the end.
pub proof fn lemma_ws_end(s: Seq<char>, p: int)
    requires
        0 <= p <= s.len(),
    ensures
        p <= ws_end(s, p) <= s.len(),
    decreases s.len() - p, 0int,
{
    if p < s.len() && whitespace(s[p]) {
        lemma_ws_end(s, p + 1);
    } else if p + 1 < s.len() && s[p] == '-' && s[p + 1] == '-' {
        lemma_comment_end(s, p + 2);
    }
}

/// The end of a comment is not before where it is looked for.
pub proof fn lemma_comment_end(s: Seq<char>, p: int)
    requires
        0 <= p <= s.len(),
    ensures
        p <= comment_end(s, p) <= s.len(),
    decreases s.len() - p, 1int,
{
    if p < s.len() && s[p] != '\n' {
        lemma_comment_end(s, p + 1);
    } else {
        lemma_ws_end(s, p);
    }
}

/// The position after the white space and comments from `p`.
pub fn skip_insignificants(src: &str, p: usize) -> (q: usize)
    requires
        p <= src@.len(),
    ensures
        q == ws_end(src@, p as int),
        p <= q <= src@.len(),
        src@.len() <= usize::MAX,
{
    proof {
        lemma_ws_end(src@, p as int);
    }
    let n = src.unicode_len();
    let mut i = p;
    let mut in_comment = false;
    while i < n
        invariant
            p <= i <= n,
            n == src@.len(),
            ws_end(src@, p as int) == if in_comment {
                comment_end(src@, i as int)
            } else {
                ws_end(src@, i as int)
            },
        decreases n - i, if in_comment { 1int } else { 0int },
    {
        let c = src.get_char(i);
        if in_comment {
            if c == '\n' {
                in_comment = false;
            } else {
                i = i + 1;
            }
        } else if is_whitespace(c) {
            i = i + 1;
        } else if c == '-' && i + 1 < n && src.get_char(i + 1) == '-' {
            i = i + 2;
            in_comment = true;
        } else {
            return i;
        }
    }
    proof {
        assert(ws_end(src@, i as int) == i);
        assert(comment_end(src@, i as int) == ws_end(src@, i as int));
    }
    i
}

/// The text after the white space and `--` comments at the start of `src`.
pub fn insignificants(src: &str) -> (rest: &str)
    ensures
        rest@ == src@.skip(ws_end(src@, 0)),
{
    let q = skip_insignificants(src, 0);
    src.substring_char(q, src.unicode_len())
}

/// The outcome `m` followed by the white space and comments after it.
pub open spec fn lexed<B>(s: Seq<char>, m: Parsed<B>) -> Parsed<B> {
    match m {
        Parsed::Done(v, q) => Parsed::Done(v, ws_end(s, q)),
        Parsed::Fail(c) => Parsed::Fail(c),
    }
}

/// `s` has `w` at `p`.
pub open spec fn has_at(s: Seq<char>, p: int, w: Seq<char>) -> bool {
    0 <= p && p + w.len() <= s.len() && s.subrange(p, p + w.len()) == w
}

/// The keyword `w` at `p`, not followed by a character that could continue
/// an identifier. Failing, it has consumed input when the first character
/// matched.
pub open spec fn sp_keyword(s: Seq<char>, p: int, w: Seq<char>) -> Parsed<()> {
    if has_at(s, p, w) && !(p + w.len() < s.len() && is_rest(s[p + w.len()])) {
        Parsed::Done((), p + w.len())
    } else {
        Parsed::Fail(w.len() > 0 && at(s, p, w[0]))
    }
}

/// The identifier at `p`; a reserved word fails after consuming input.
pub open spec fn sp_ident(s: Seq<char>, p: int) -> Parsed<Seq<char>> {
    match word_len(s.skip(p)) {
        Some(k) => if is_keyword(s.subrange(p, p + k)) {
            Parsed::Fail(true)
        } else {
            Parsed::Done(s.subrange(p, p + k), p + k)
        },
        None => Parsed::Fail(false),
    }
}

/// The integer literal at `p`; a failure has consumed input when a digit
/// starts it.
pub open spec fn sp_integer(s: Seq<char>, p: int) -> Parsed<u64> {
    match integer_literal(s.skip(p)) {
        Ok((v, k)) => Parsed::Done(v, p + k),
        Err(_) => Parsed::Fail(0 <= p < s.len() && is_digit_of(s[p], 10)),
    }
}

/// The keyword `word` at position `p` of `src`.
pub fn keyword_at(src: &str, p: usize, word: &str) -> (r: Step<()>)
    requires
        p <= src@.len(),
        word@.len() > 0,
    ensures
        agrees(r, sp_keyword(src@, p as int, word@), |u: ()| u),
        advances(sp_keyword(src@, p as int, word@), p as int, src@.len() as int),
{
    let n = src.unicode_len();
    let sub = src.substring_char(p, n);
    match crate::ident_keyword::keyword(word, sub) {
        Ok((_, rest)) => {
            let k = word.unicode_len();
            proof {
                assert(sub@.subrange(0, k as int) =~= src@.subrange(p as int, p + k));
                assert(k < sub@.len() ==> sub@[k as int] == src@[p + k]);
            }
            Step::Done((), p + k)
        },
        Err(_) => {
            proof {
                let k = word@.len();
                if has_at(src@, p as int, word@) {
                    assert(sub@.subrange(0, k as int) =~= src@.subrange(p as int, p + k));
                    assert(k < sub@.len() ==> sub@[k as int] == src@[p + k]);
                }
            }
            Step::Fail(p < n && src.get_char(p) == word.get_char(0))
        },
    }
}

/// The identifier at position `p` of `src`.
pub fn ident_at(src: &str, p: usize) -> (r: Step<String>)
    requires
        p <= src@.len(),
    ensures
        agrees(r, sp_ident(src@, p as int), |w: String| w@),
        advances(sp_ident(src@, p as int), p as int, src@.len() as int),
{
    let n = src.unicode_len();
    let sub = src.substring_char(p, n);
    proof {
        assert(sub@ =~= src@.skip(p as int));
        lemma_word_len(src@.skip(p as int));
    }
    match ident(sub) {
        Ok((word, rest)) => {
            let q = n - rest.unicode_len();
            proof {
                let k = word_len(src@.skip(p as int))->Some_0;
                assert(src@.skip(p as int).subrange(0, k as int) =~= src@.subrange(
                    p as int,
                    p + k,
                ));
            }
            Step::Done(word, q)
        },
        Err(e) => {
            proof {
                if let Some(k) = word_len(src@.skip(p as int)) {
                    assert(src@.skip(p as int).subrange(0, k as int) =~= src@.subrange(
                        p as int,
                        p + k,
                    ));
                }
            }
            Step::Fail(e == crate::ident_keyword::IdentError::Keyword)
        },
    }
}

/// The integer literal at position `p` of `src`.
pub fn integer_at(src: &str, p: usize) -> (r: Step<u64>)
    requires
        p <= src@.len(),
    ensures
        agrees(r, sp_integer(src@, p as int), |v: u64| v),
        advances(sp_integer(src@, p as int), p as int, src@.len() as int),
{
    let n = src.unicode_len();
    let sub = src.substring_char(p, n);
    proof {
        assert(sub@ =~= src@.skip(p as int));
    }
    match integer_u64(sub) {
        Ok((v, rest)) => {
            proof {
                lemma_integer_len(src@.skip(p as int));
            }
            Step::Done(v, n - rest.unicode_len())
        },
        Err(_) => Step::Fail(p < n && crate::number::parse_digit(src.get_char(p), 10).is_some()),
    }
}

/// A run of digits and underscores ends between where it starts and the end.
pub proof fn lemma_run_end(s: Seq<char>, from: int, base: nat)
    requires
        0 <= from <= s.len(),
    ensures
        from <= run_end(s, from, base) <= s.len(),
    decreases s.len() - from,
{
    if from < s.len() && (s[from] == '_' || is_digit_of(s[from], base)) {
        lemma_run_end(s, from + 1, base);
    }
}

/// An integer literal takes at least one character and no more than there
/// are.
pub proof fn lemma_integer_len(s: Seq<char>)
    ensures
        integer_literal(s) matches Ok((_, k)) ==> 0 < k <= s.len(),
{
    if s.len() >= 2 && s[0] == '0' && prefix_base(s[1]) is Some {
        lemma_run_end(s, 2, prefix_base(s[1])->Some_0);
    } else if s.len() >= 1 {
        lemma_run_end(s, 1, 10);
    }
}

/// A run of identifier characters ends between where it starts and the end.
pub proof fn lemma_rest_end(s: Seq<char>, from: int)
    requires
        0 <= from <= s.len(),
    ensures
        from <= rest_end(s, from) <= s.len(),
    decreases s.len() - from,
{
    if from < s.len() && is_rest(s[from]) {
        lemma_rest_end(s, from + 1);
    }
}

/// A word takes at least one character and no more than there are.
pub proof fn lemma_word_len(s: Seq<char>)
    ensures
        word_len(s) matches Some(k) ==> 0 < k <= s.len(),
{
    if s.len() > 0 {
        lemma_rest_end(s, 1);
    }
}

/// The end of the unsigned decimal number at `i` (a digit, then digits and
/// `_`), or `i` when no digit is there.
pub open spec fn number_end(s: Seq<char>, i: int) -> int {
    if 0 <= i < s.len() && is_digit_of(s[i], 10) {
        run_end(s, i + 1, 10)
    } else {
        i
    }
}

/// The end of the run of `_` from `i`.
pub open spec fn underscores_end(s: Seq<char>, i: int) -> int
    decreases s.len() - i,
{
    if 0 <= i < s.len() && s[i] == '_' {
        underscores_end(s, i + 1)
    } else {
        i
    }
}

/// What makes a number a float: a `.` followed by a digit, or an exponent.
pub open spec fn float_start(s: Seq<char>, x: int) -> bool {
    (at(s, x, '.') && x + 1 < s.len() && is_digit_of(s[x + 1], 10)) || at(s, x, 'e') || at(
        s,
        x,
        'E',
    )
}

/// The decimal text of a float from the parts of its literal:
/// `0<whole>.<fraction>0e<sign>0<exponent>`, underscores left out.
pub open spec fn float_text(whole: Seq<char>, fraction: Seq<char>, sign: char, exp: Seq<char>) -> Seq<
    char,
> {
    seq!['0'] + strip_underscores(whole) + seq!['.'] + strip_underscores(fraction) + seq![
        '0',
        'e',
        sign,
        '0',
    ] + strip_underscores(exp)
}

/// The float literal at `p`: an optional whole part, then a `.` and digits,
/// or an exponent (`e` or `E`, underscores, an optional sign, digits and
/// underscores), or both; no letter or digit may follow. Its value is the
/// decimal text that spells it.
pub open spec fn sp_float(s: Seq<char>, p: int) -> Parsed<Seq<char>> {
    let x = number_end(s, p);
    if !float_start(s, x) {
        Parsed::Fail(false)
    } else {
        let y = if at(s, x, '.') {
            number_end(s, x + 1)
        } else {
            x
        };
        let fraction = if at(s, x, '.') {
            s.subrange(x + 1, y)
        } else {
            Seq::empty()
        };
        if at(s, y, 'e') || at(s, y, 'E') {
            let z0 = underscores_end(s, y + 1);
            let sign = if at(s, z0, '-') {
                '-'
            } else {
                '+'
            };
            let z1 = if at(s, z0, '+') || at(s, z0, '-') {
                z0 + 1
            } else {
                z0
            };
            let z2 = run_end(s, z1, 10);
            if z2 == z1 || (z2 < s.len() && alphanumeric(s[z2])) {
                Parsed::Fail(true)
            } else {
                Parsed::Done(float_text(s.subrange(p, x), fraction, sign, s.subrange(z1, z2)), z2)
            }
        } else if y < s.len() && alphanumeric(s[y]) {
            Parsed::Fail(true)
        } else {
            Parsed::Done(float_text(s.subrange(p, x), fraction, '+', Seq::empty()), y)
        }
    }
}

/// Appends `src[from..to]` without its underscores to `text`.
fn append_stripped(text: &mut String, src: &str, from: usize, to: usize)
    requires
        from <= to <= src@.len(),
    ensures
        final(text)@ == old(text)@ + strip_underscores(src@.subrange(from as int, to as int)),
{
    let mut i = from;
    proof {
        assert(src@.subrange(from as int, from as int) =~= Seq::<char>::empty());
        assert(text@ =~= old(text)@ + strip_underscores(src@.subrange(from as int, i as int)));
    }
    while i < to
        invariant
            from <= i <= to <= src@.len(),
            text@ == old(text)@ + strip_underscores(src@.subrange(from as int, i as int)),
        decreases to - i,
    {
        let c = src.get_char(i);
        proof {
            assert(src@.subrange(from as int, i + 1).drop_last() =~= src@.subrange(
                from as int,
                i as int,
            ));
        }
        if c != '_' {
            let one = src.substring_char(i, i + 1);
            proof {
                assert(one@ =~= seq![c]);
            }
            text.append(one);
        }
        proof {
            assert(text@ =~= old(text)@ + strip_underscores(src@.subrange(from as int, i + 1)));
        }
        i = i + 1;
    }
}

/// The end of the decimal number at `i`.
fn number_end_at(src: &str, i: usize) -> (end: usize)
    requires
        i <= src@.len(),
    ensures
        end == number_end(src@, i as int),
        i <= end <= src@.len(),
{
    if i < src.unicode_len() && crate::number::parse_digit(src.get_char(i), 10).is_some() {
        crate::number::scan_run(src, i + 1, 10)
    } else {
        i
    }
}

/// Where the exponent of a float at `y` (`e` or `E` there) has its digits:
/// whether its sign is `-`, where the digits start and where they end.
fn exponent_at(src: &str, y: usize) -> (r: (bool, usize, usize))
    requires
        y < src@.len(),
    ensures
        ({
            let z0 = underscores_end(src@, y + 1);
            &&& r.0 == at(src@, z0, '-')
            &&& r.1 == if at(src@, z0, '+') || at(src@, z0, '-') {
                z0 + 1
            } else {
                z0
            }
            &&& r.2 == run_end(src@, r.1 as int, 10)
            &&& y < r.1 <= r.2 <= src@.len()
        }),
{
    let n = src.unicode_len();
    let mut z0 = y + 1;
    while z0 < n && src.get_char(z0) == '_'
        invariant
            y + 1 <= z0 <= n,
            n == src@.len(),
            underscores_end(src@, y + 1) == underscores_end(src@, z0 as int),
        decreases n - z0,
    {
        z0 = z0 + 1;
    }
    let minus = z0 < n && src.get_char(z0) == '-';
    let signed = minus || (z0 < n && src.get_char(z0) == '+');
    let z1 = if signed {
        z0 + 1
    } else {
        z0
    };
    proof {
        lemma_run_end(src@, z1 as int, 10);
    }
    (minus, z1, crate::number::scan_run(src, z1, 10))
}

/// The float literal at position `p` of `src`.
#[verifier::rlimit(40)]
pub fn float_at(src: &str, p: usize) -> (r: Step<String>)
    requires
        p <= src@.len(),
    ensures
        agrees(r, sp_float(src@, p as int), |t: String| t@),
        advances(sp_float(src@, p as int), p as int, src@.len() as int),
{
    let n = src.unicode_len();
    let x = number_end_at(src, p);
    let dot = x < n && src.get_char(x) == '.';
    let exp_at_x = x < n && (src.get_char(x) == 'e' || src.get_char(x) == 'E');
    let digit_after = x < n && x + 1 < n && crate::number::parse_digit(src.get_char(x + 1), 10).is_some();
    if !((dot && digit_after) || exp_at_x) {
        return Step::Fail(false);
    }
    let y = if dot {
        number_end_at(src, x + 1)
    } else {
        x
    };
    let ghost fraction = if dot {
        src@.subrange(x + 1, y as int)
    } else {
        Seq::empty()
    };
    let mut text = String::from_str("0");
    proof {
        reveal_strlit("0");
        reveal_strlit(".");
        reveal_strlit("0e-0");
        reveal_strlit("0e+0");
    }
    append_stripped(&mut text, src, p, x);
    text.append(".");
    if dot {
        append_stripped(&mut text, src, x + 1, y);
    } else {
        assert(strip_underscores(Seq::<char>::empty()) =~= Seq::<char>::empty());
    }
    let ghost head = text@;
    assert(head == seq!['0'] + strip_underscores(src@.subrange(p as int, x as int)) + seq!['.']
        + strip_underscores(fraction));
    if y < n && (src.get_char(y) == 'e' || src.get_char(y) == 'E') {
        let (minus, z1, z2) = exponent_at(src, y);
        if z2 == z1 || (z2 < n && is_alphanumeric(src.get_char(z2))) {
            return Step::Fail(true);
        }
        if minus {
            text.append("0e-0");
        } else {
            text.append("0e+0");
        }
        append_stripped(&mut text, src, z1, z2);
        proof {
            let sign = if minus {
                '-'
            } else {
                '+'
            };
            assert(text@ =~= float_text(
                src@.subrange(p as int, x as int),
                fraction,
                sign,
                src@.subrange(z1 as int, z2 as int),
            ));
        }
        Step::Done(text, z2)
    } else if y < n && is_alphanumeric(src.get_char(y)) {
        Step::Fail(true)
    } else {
        text.append("0e+0");
        proof {
            assert(strip_underscores(Seq::<char>::empty()) =~= Seq::<char>::empty());
            assert(text@ =~= float_text(
                src@.subrange(p as int, x as int),
                fraction,
                '+',
                Seq::empty(),
            ));
        }
        Step::Done(text, y)
    }
}

/// A character of a character or string literal: a byte written as an
/// escape, or a character as it stands.
#[derive(Debug, PartialEq, Eq, Clone, Copy, Structural)]
pub enum CharItem {
    Byte(u8),
    Char(char),
}

/// The byte a one-character escape after `\` stands for.
pub open spec fn simple_escape(c: char) -> Option<u8> {
    if c == '\\' {
        Some(92)
    } else if c == '"' {
        Some(34)
    } else if c == '\'' {
        Some(39)
    } else if c == 'n' {
        Some(10)
    } else if c == 'r' {
        Some(13)
    } else if c == 't' {
        Some(9)
    } else if c == 'v' {
        Some(11)
    } else if c == '0' {
        Some(0)
    } else {
        None
    }
}

/// The character at `p` inside a literal closed by `delimiter`: an escape
/// (`\` then a one-character escape, or `x` and two hexadecimal digits), or
/// any character but the delimiter and a line feed.
pub open spec fn sp_char_inside(s: Seq<char>, p: int, delimiter: char) -> Parsed<CharItem> {
    if at(s, p, '\\') {
        if p + 1 < s.len() && simple_escape(s[p + 1]) is Some {
            Parsed::Done(CharItem::Byte(simple_escape(s[p + 1])->Some_0), p + 2)
        } else if at(s, p + 1, 'x') && p + 3 < s.len() && is_digit_of(s[p + 2], 16) && is_digit_of(
            s[p + 3],
            16,
        ) {
            let high = crate::number::digit_value(s[p + 2])->Some_0;
            let low = crate::number::digit_value(s[p + 3])->Some_0;
            Parsed::Done(CharItem::Byte((high * 16 + low) as u8), p + 4)
        } else {
            Parsed::Fail(true)
        }
    } else if 0 <= p < s.len() && s[p] != delimiter && s[p] != '\n' {
        Parsed::Done(CharItem::Char(s[p]), p + 1)
    } else {
        Parsed::Fail(false)
    }
}

/// The UTF-8 encoding of a character.
pub open spec fn utf8(c: char) -> Seq<u8> {
    let v = c as int;
    if v < 0x80 {
        seq![v as u8]
    } else if v < 0x800 {
        seq![(0xC0 + v / 64) as u8, (0x80 + v % 64) as u8]
    } else if v < 0x10000 {
        seq![(0xE0 + v / 4096) as u8, (0x80 + (v / 64) % 64) as u8, (0x80 + v % 64) as u8]
    } else {
        seq![
            (0xF0 + v / 262144) as u8,
            (0x80 + (v / 4096) % 64) as u8,
            (0x80 + (v / 64) % 64) as u8,
            (0x80 + v % 64) as u8,
        ]
    }
}

/// The bytes a character of a string literal stands for.
pub open spec fn item_bytes(item: CharItem) -> Seq<u8> {
    match item {
        CharItem::Byte(b) => seq![b],
        CharItem::Char(c) => utf8(c),
    }
}

/// The character literal at `p`: a character or escape between `'`; a
/// character must take one byte in UTF-8. Its value is that byte.
pub open spec fn sp_char_literal(s: Seq<char>, p: int) -> Parsed<u64> {
    if !at(s, p, '\'') {
        Parsed::Fail(false)
    } else {
        match sp_char_inside(s, p + 1, '\'') {
            Parsed::Done(item, q) => if !at(s, q, '\'') {
                Parsed::Fail(true)
            } else {
                match item {
                    CharItem::Byte(b) => Parsed::Done(b as u64, q + 1),
                    CharItem::Char(c) => if (c as int) < 0x80 {
                        Parsed::Done(c as u64, q + 1)
                    } else {
                        Parsed::Fail(true)
                    },
                }
            },
            Parsed::Fail(_) => Parsed::Fail(true),
        }
    }
}

/// The rest of a string literal from `p`, its closing `"` included: the
/// bytes its characters stand for.
pub open spec fn sp_string_body(s: Seq<char>, p: int) -> Parsed<Seq<u8>>
    decreases s.len() - p,
{
    match sp_char_inside(s, p, '"') {
        Parsed::Done(item, q) => match sp_string_body(s, q) {
            Parsed::Done(bytes, r) => Parsed::Done(item_bytes(item) + bytes, r),
            Parsed::Fail(_) => Parsed::Fail(true),
        },
        Parsed::Fail(true) => Parsed::Fail(true),
        Parsed::Fail(false) => if at(s, p, '"') {
            Parsed::Done(Seq::empty(), p + 1)
        } else {
            Parsed::Fail(true)
        },
    }
}

/// The string literal at `p`: characters and escapes between `"`, as bytes.
pub open spec fn sp_string_literal(s: Seq<char>, p: int) -> Parsed<Seq<u8>> {
    if at(s, p, '"') {
        sp_string_body(s, p + 1)
    } else {
        Parsed::Fail(false)
    }
}

/// The character of a literal at position `p` of `src`.
fn char_inside_at(src: &str, p: usize, delimiter: char) -> (r: Step<CharItem>)
    requires
        p <= src@.len(),
    ensures
        agrees(r, sp_char_inside(src@, p as int, delimiter), |i: CharItem| i),
        advances(sp_char_inside(src@, p as int, delimiter), p as int, src@.len() as int),
{
    let n = src.unicode_len();
    if p >= n {
        return Step::Fail(false);
    }
    let c = src.get_char(p);
    if c == '\\' {
        if p + 1 >= n {
            return Step::Fail(true);
        }
        let e = src.get_char(p + 1);
        let simple: Option<u8> = if e == '\\' {
            Some(92)
        } else if e == '"' {
            Some(34)
        } else if e == '\'' {
            Some(39)
        } else if e == 'n' {
            Some(10)
        } else if e == 'r' {
            Some(13)
        } else if e == 't' {
            Some(9)
        } else if e == 'v' {
            Some(11)
        } else if e == '0' {
            Some(0)
        } else {
            None
        };
        if let Some(b) = simple {
            return Step::Done(CharItem::Byte(b), p + 2);
        }
        if e == 'x' && n - p > 3 {
            let high = crate::number::parse_digit(src.get_char(p + 2), 16);
            let low = crate::number::parse_digit(src.get_char(p + 3), 16);
            if let (Some(h), Some(l)) = (high, low) {
                return Step::Done(CharItem::Byte(h * 16 + l), p + 4);
            }
        }
        Step::Fail(true)
    } else if c != delimiter && c != '\n' {
        Step::Done(CharItem::Char(c), p + 1)
    } else {
        Step::Fail(false)
    }
}

/// The UTF-8 encoding of `c`.
pub fn encode_utf8(c: char) -> (bytes: Vec<u8>)
    ensures
        bytes@ == utf8(c),
{
    let v = c as u32;
    if v < 0x80 {
        vec![v as u8]
    } else if v < 0x800 {
        vec![(0xC0 + v / 64) as u8, (0x80 + v % 64) as u8]
    } else if v < 0x10000 {
        vec![(0xE0 + v / 4096) as u8, (0x80 + (v / 64) % 64) as u8, (0x80 + v % 64) as u8]
    } else {
        vec![
            (0xF0 + v / 262144) as u8,
            (0x80 + (v / 4096) % 64) as u8,
            (0x80 + (v / 64) % 64) as u8,
            (0x80 + v % 64) as u8,
        ]
    }
}

/// The character literal at position `p` of `src`.
pub fn char_literal_at(src: &str, p: usize) -> (r: Step<u64>)
    requires
        p <= src@.len(),
    ensures
        agrees(r, sp_char_literal(src@, p as int), |v: u64| v),
        advances(sp_char_literal(src@, p as int), p as int, src@.len() as int),
{
    let n = src.unicode_len();
    if !(p < n && src.get_char(p) == '\'') {
        return Step::Fail(false);
    }
    match char_inside_at(src, p + 1, '\'') {
        Step::Done(item, q) => {
            if !(q < n && src.get_char(q) == '\'') {
                return Step::Fail(true);
            }
            match item {
                CharItem::Byte(b) => Step::Done(b as u64, q + 1),
                CharItem::Char(c) => if (c as u32) < 0x80 {
                    Step::Done(c as u64, q + 1)
                } else {
                    Step::Fail(true)
                },
            }
        },
        Step::Fail(_) => Step::Fail(true),
    }
}

/// The string literal at position `p` of `src`, as bytes.
pub fn string_literal_at(src: &str, p: usize) -> (r: Step<Vec<u8>>)
    requires
        p <= src@.len(),
    ensures
        agrees(r, sp_string_literal(src@, p as int), |b: Vec<u8>| b@),
        advances(sp_string_literal(src@, p as int), p as int, src@.len() as int),
{
    let n = src.unicode_len();
    if !(p < n && src.get_char(p) == '"') {
        return Step::Fail(false);
    }
    let mut bytes: Vec<u8> = Vec::new();
    let mut i = p + 1;
    proof {
        lemma_string_body(src@, i as int);
    }
    loop
        invariant
            p < i <= n,
            n == src@.len(),
            sp_string_literal(src@, p as int) == match sp_string_body(src@, i as int) {
                Parsed::Done(rest, r) => Parsed::Done(bytes@ + rest, r),
                Parsed::Fail(c) => Parsed::Fail(c),
            },
            stays_within(sp_string_body(src@, i as int), i as int, n as int),
        decreases n - i,
    {
        match char_inside_at(src, i, '"') {
            Step::Done(item, q) => {
                let item_b = match item {
                    CharItem::Byte(b) => vec![b],
                    CharItem::Char(c) => encode_utf8(c),
                };
                proof {
                    lemma_string_body(src@, q as int);
                    match sp_string_body(src@, q as int) {
                        Parsed::Done(rest, _) => {
                            assert(bytes@ + (item_bytes(item) + rest) =~= (bytes@ + item_b@)
                                + rest);
                        },
                        _ => {},
                    }
                }
                let mut item_b = item_b;
                bytes.append(&mut item_b);
                i = q;
            },
            Step::Fail(true) => {
                return Step::Fail(true);
            },
            Step::Fail(false) => {
                if i < n && src.get_char(i) == '"' {
                    proof {
                        assert(bytes@ + Seq::<u8>::empty() =~= bytes@);
                    }
                    return Step::Done(bytes, i + 1);
                }
                return Step::Fail(true);
            },
        }
    }
}

/// The rest of a string literal ends after where it starts.
pub proof fn lemma_string_body(s: Seq<char>, p: int)
    requires
        0 <= p <= s.len(),
    ensures
        advances(sp_string_body(s, p), p, s.len() as int),
    decreases s.len() - p,
{
    if let Parsed::Done(_, q) = sp_char_inside(s, p, '"') {
        lemma_string_body(s, q);
    }
}

/// The literal at `p`: a character literal, a float, an integer, `false` or
/// `true`.
pub open spec fn sp_literal(s: Seq<char>, p: int) -> Parsed<LiteralV> {
    match sp_char_literal(s, p) {
        Parsed::Done(v, q) => Parsed::Done(LiteralV::UInt(v), q),
        Parsed::Fail(true) => Parsed::Fail(true),
        Parsed::Fail(false) => match sp_float(s, p) {
            Parsed::Done(t, q) => Parsed::Done(LiteralV::Float(t), q),
            Parsed::Fail(true) => Parsed::Fail(true),
            Parsed::Fail(false) => match sp_integer(s, p) {
                Parsed::Done(v, q) => Parsed::Done(LiteralV::UInt(v), q),
                Parsed::Fail(true) => Parsed::Fail(true),
                Parsed::Fail(false) => match sp_keyword(s, p, seq!['f', 'a', 'l', 's', 'e']) {
                    Parsed::Done(_, q) => Parsed::Done(LiteralV::False, q),
                    Parsed::Fail(_) => match sp_keyword(s, p, seq!['t', 'r', 'u', 'e']) {
                        Parsed::Done(_, q) => Parsed::Done(LiteralV::True, q),
                        Parsed::Fail(_) => Parsed::Fail(false),
                    },
                },
            },
        },
    }
}

/// The literal at position `p` of `src`.
pub fn literal_at(src: &str, p: usize) -> (r: Step<Literal>)
    requires
        p <= src@.len(),
    ensures
        agrees(r, sp_literal(src@, p as int), |l: Literal| literal_view(l)),
        advances(sp_literal(src@, p as int), p as int, src@.len() as int),
{
    match char_literal_at(src, p) {
        Step::Done(v, q) => {
            return Step::Done(Literal::UInt(v), q);
        },
        Step::Fail(true) => {
            return Step::Fail(true);
        },
        Step::Fail(false) => {},
    }
    match float_at(src, p) {
        Step::Done(t, q) => {
            return Step::Done(Literal::Float(t), q);
        },
        Step::Fail(true) => {
            return Step::Fail(true);
        },
        Step::Fail(false) => {},
    }
    match integer_at(src, p) {
        Step::Done(v, q) => {
            return Step::Done(Literal::UInt(v), q);
        },
        Step::Fail(true) => {
            return Step::Fail(true);
        },
        Step::Fail(false) => {},
    }
    proof {
        reveal_strlit("false");
        reveal_strlit("true");
        assert("false"@ =~= seq!['f', 'a', 'l', 's', 'e']);
        assert("true"@ =~= seq!['t', 'r', 'u', 'e']);
    }
    if let Step::Done(_, q) = keyword_at(src, p, "false") {
        return Step::Done(Literal::False, q);
    }
    if let Step::Done(_, q) = keyword_at(src, p, "true") {
        return Step::Done(Literal::True, q);
    }
    Step::Fail(false)
}

/// `s` has the characters `a` and then `b` at `p`.
pub open spec fn pair_at(s: Seq<char>, p: int, a: char, b: char) -> bool {
    at(s, p, a) && at(s, p + 1, b)
}

/// The infix operator of the level `precedence` at `p`, with the number of
/// characters it takes: at 5 `//`, `*`, `/`, `%`; at 4 `++`, `+`, `-`; at 3
/// `==`, `!=`, `<=`, `>=`, `<` (not before `-`), `>` (not before `.` or
/// `<`); at 2 `&&`, `&`; at 1 `||`, `|`.
pub open spec fn infix_token(s: Seq<char>, p: int, precedence: u8) -> Option<(BinaryType, int)> {
    if precedence == 5 {
        if pair_at(s, p, '/', '/') {
            Some((BinaryType::FloorDiv, 2))
        } else if at(s, p, '*') {
            Some((BinaryType::Multiply, 1))
        } else if at(s, p, '/') {
            Some((BinaryType::Div, 1))
        } else if at(s, p, '%') {
            Some((BinaryType::Mod, 1))
        } else {
            None
        }
    } else if precedence == 4 {
        if pair_at(s, p, '+', '+') {
            Some((BinaryType::Concatenate, 2))
        } else if at(s, p, '+') {
            Some((BinaryType::Add, 1))
        } else if at(s, p, '-') {
            Some((BinaryType::Sub, 1))
        } else {
            None
        }
    } else if precedence == 3 {
        if pair_at(s, p, '=', '=') {
            Some((BinaryType::Equal, 2))
        } else if pair_at(s, p, '!', '=') {
            Some((BinaryType::NotEqual, 2))
        } else if pair_at(s, p, '<', '=') {
            Some((BinaryType::LessEqual, 2))
        } else if pair_at(s, p, '>', '=') {
            Some((BinaryType::GreaterEqual, 2))
        } else if at(s, p, '<') && !at(s, p + 1, '-') {
            Some((BinaryType::Less, 1))
        } else if at(s, p, '>') && !at(s, p + 1, '.') && !at(s, p + 1, '<') {
            Some((BinaryType::Greater, 1))
        } else {
            None
        }
    } else if precedence == 2 {
        if pair_at(s, p, '&', '&') {
            Some((BinaryType::LazyAnd, 2))
        } else if at(s, p, '&') {
            Some((BinaryType::And, 1))
        } else {
            None
        }
    } else if precedence == 1 {
        if pair_at(s, p, '|', '|') {
            Some((BinaryType::LazyOr, 2))
        } else if at(s, p, '|') {
            Some((BinaryType::Or, 1))
        } else {
            None
        }
    } else {
        None
    }
}

/// The infix operator of the level at `p` and the position after it and the
/// white space after it.
pub open spec fn sp_infix_op(s: Seq<char>, p: int, precedence: u8) -> Option<(BinaryType, int)> {
    match infix_token(s, p, precedence) {
        Some((op, k)) => Some((op, ws_end(s, p + k))),
        None => None,
    }
}

/// The infix operator of the level at position `p` of `src`, with the
/// position after it and the white space after it.
pub fn infix_op_at(src: &str, p: usize, precedence: u8) -> (r: Option<(BinaryType, usize)>)
    requires
        p <= src@.len(),
    ensures
        match r {
            Some((op, q)) => sp_infix_op(src@, p as int, precedence) == Some((op, q as int)) && p
                < q <= src@.len(),
            None => sp_infix_op(src@, p as int, precedence) is None,
        },
{
    let n = src.unicode_len();
    if p >= n {
        return None;
    }
    let a = src.get_char(p);
    let b: Option<char> = if n - p > 1 {
        Some(src.get_char(p + 1))
    } else {
        None
    };
    let pair = |x: char, y: char| -> (r: bool)
        ensures
            r == pair_at(src@, p as int, x, y),
        { a == x && b == Some(y) };
    let token: Option<(BinaryType, usize)> = if precedence == 5 {
        if pair('/', '/') {
            Some((BinaryType::FloorDiv, 2))
        } else if a == '*' {
            Some((BinaryType::Multiply, 1))
        } else if a == '/' {
            Some((BinaryType::Div, 1))
        } else if a == '%' {
            Some((BinaryType::Mod, 1))
        } else {
            None
        }
    } else if precedence == 4 {
        if pair('+', '+') {
            Some((BinaryType::Concatenate, 2))
        } else if a == '+' {
            Some((BinaryType::Add, 1))
        } else if a == '-' {
            Some((BinaryType::Sub, 1))
        } else {
            None
        }
    } else if precedence == 3 {
        if pair('=', '=') {
            Some((BinaryType::Equal, 2))
        } else if pair('!', '=') {
            Some((BinaryType::NotEqual, 2))
        } else if pair('<', '=') {
            Some((BinaryType::LessEqual, 2))
        } else if pair('>', '=') {
            Some((BinaryType::GreaterEqual, 2))
        } else if a == '<' && b != Some('-') {
            Some((BinaryType::Less, 1))
        } else if a == '>' && b != Some('.') && b != Some('<') {
            Some((BinaryType::Greater, 1))
        } else {
            None
        }
    } else if precedence == 2 {
        if pair('&', '&') {
            Some((BinaryType::LazyAnd, 2))
        } else if a == '&' {
            Some((BinaryType::And, 1))
        } else {
            None
        }
    } else if precedence == 1 {
        if pair('|', '|') {
            Some((BinaryType::LazyOr, 2))
        } else if a == '|' {
            Some((BinaryType::Or, 1))
        } else {
            None
        }
    } else {
        None
    };
    match token {
        Some((op, k)) => Some((op, skip_insignificants(src, p + k))),
        None => None,
    }
}

/// The range operator at `p`: `.` or `>` (an inclusive or exclusive lower
/// end), then `.` or `<` (an inclusive or exclusive upper end).
pub open spec fn sp_range_op(s: Seq<char>, p: int) -> Parsed<(BoundType, BoundType)> {
    if at(s, p, '.') || at(s, p, '>') {
        let left = if at(s, p, '.') {
            BoundType::Inclusive
        } else {
            BoundType::Exclusive
        };
        if at(s, p + 1, '.') {
            Parsed::Done((left, BoundType::Inclusive), p + 2)
        } else if at(s, p + 1, '<') {
            Parsed::Done((left, BoundType::Exclusive), p + 2)
        } else {
            Parsed::Fail(true)
        }
    } else {
        Parsed::Fail(false)
    }
}

/// The range operator at position `p` of `src`.
pub fn range_op_at(src: &str, p: usize) -> (r: Step<(BoundType, BoundType)>)
    requires
        p <= src@.len(),
    ensures
        agrees(r, sp_range_op(src@, p as int), |b: (BoundType, BoundType)| b),
        advances(sp_range_op(src@, p as int), p as int, src@.len() as int),
{
    let n = src.unicode_len();
    if p >= n {
        return Step::Fail(false);
    }
    let a = src.get_char(p);
    let left = if a == '.' {
        BoundType::Inclusive
    } else if a == '>' {
        BoundType::Exclusive
    } else {
        return Step::Fail(false);
    };
    if n - p < 2 {
        return Step::Fail(true);
    }
    let b = src.get_char(p + 1);
    if b == '.' {
        Step::Done((left, BoundType::Inclusive), p + 2)
    } else if b == '<' {
        Step::Done((left, BoundType::Exclusive), p + 2)
    } else {
        Step::Fail(true)
    }
}

/// An identifier takes at least one character and no more than there are.
pub proof fn lemma_ident(s: Seq<char>, p: int)
    requires
        0 <= p <= s.len(),
    ensures
        advances(sp_ident(s, p), p, s.len() as int),
{
    lemma_word_len(s.skip(p));
}

} // verus!
