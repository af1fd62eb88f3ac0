//! Integer literals: decimal, or hexadecimal, octal and binary after `0x`,
//! `0o` and `0b`, with `_` allowed between digits.
use crate::decimal::{decimal, digit_char};
use vstd::prelude::*;

verus! {

/// The value of a digit character in bases up to 36: `0`-`9`, then `a`-`z`
/// and `A`-`Z` from 10 on.
pub open spec fn digit_value(c: char) -> Option<nat> {
    if '0' <= c && c <= '9' {
        Some((c as nat - '0' as nat) as nat)
    } else if 'a' <= c && c <= 'z' {
        Some((c as nat - 'a' as nat + 10) as nat)
    } else if 'A' <= c && c <= 'Z' {
        Some((c as nat - 'A' as nat + 10) as nat)
    } else {
        None
    }
}

/// Whether `c` is a digit of the base.
pub open spec fn is_digit_of(c: char, base: nat) -> bool {
    digit_value(c) matches Some(d) && d < base
}

/// The value of the digit `c` in `base`, if it is one.
pub fn parse_digit(ch: char, base: u8) -> (digit: Option<u8>)
    ensures
        match digit {
            Some(d) => is_digit_of(ch, base as nat) && d == digit_value(ch)->Some_0,
            None => !is_digit_of(ch, base as nat),
        },
{
    let (lower, bound): (u8, u8) = if '0' <= ch && ch <= '9' {
        (48, 0)
    } else if 'a' <= ch && ch <= 'z' {
        (97, 10)
    } else if 'A' <= ch && ch <= 'Z' {
        (65, 10)
    } else {
        return None;
    };
    let code = ch as u32;
    proof {
        assert(code < 128);
    }
    let result = (code as u8) - lower + bound;
    if result < base {
        Some(result)
    } else {
        None
    }
}

/// `s` without its underscores.
pub open spec fn strip_underscores(s: Seq<char>) -> Seq<char>
    decreases s.len(),
{
    if s.len() == 0 {
        s
    } else if s.last() == '_' {
        strip_underscores(s.drop_last())
    } else {
        strip_underscores(s.drop_last()).push(s.last())
    }
}

/// The number the digits spell in `base`.
pub open spec fn digits_value(ds: Seq<char>, base: nat) -> nat
    decreases ds.len(),
{
    if ds.len() == 0 {
        0
    } else {
        digits_value(ds.drop_last(), base) * base + digit_value(ds.last())->Some_0
    }
}

/// Every character but underscores is a digit of the base.
pub open spec fn all_digits(s: Seq<char>, base: nat) -> bool {
    forall|i: int| 0 <= i < s.len() && s[i] != '_' ==> is_digit_of(#[trigger] s[i], base)
}

proof fn lemma_value_grows(ds: Seq<char>, base: nat, j: int)
    requires
        0 <= j <= ds.len(),
        base >= 1,
    ensures
        digits_value(ds.subrange(0, j), base) <= digits_value(ds, base),
    decreases ds.len(),
{
    if j < ds.len() {
        assert(ds.drop_last().subrange(0, j) =~= ds.subrange(0, j));
        lemma_value_grows(ds.drop_last(), base, j);
        let v = digits_value(ds.drop_last(), base);
        assert(v * base >= v) by (nonlinear_arith)
            requires
                base >= 1,
        ;
    } else {
        assert(ds.subrange(0, j) =~= ds);
    }
}

proof fn lemma_strip_prefix(s: Seq<char>, i: int)
    requires
        0 <= i < s.len(),
    ensures
        strip_underscores(s.subrange(0, i + 1)) == if s[i] == '_' {
            strip_underscores(s.subrange(0, i))
        } else {
            strip_underscores(s.subrange(0, i)).push(s[i])
        },
{
    assert(s.subrange(0, i + 1).drop_last() =~= s.subrange(0, i));
}

proof fn lemma_strip_is_prefix(s: Seq<char>, i: int)
    requires
        0 <= i <= s.len(),
    ensures
        strip_underscores(s.subrange(0, i)) == strip_underscores(s).subrange(
            0,
            strip_underscores(s.subrange(0, i)).len() as int,
        ),
        strip_underscores(s.subrange(0, i)).len() <= strip_underscores(s).len(),
    decreases s.len(),
{
    if i < s.len() {
        assert(s.drop_last().subrange(0, i) =~= s.subrange(0, i));
        lemma_strip_is_prefix(s.drop_last(), i);
        let a = strip_underscores(s.subrange(0, i));
        let b = strip_underscores(s.drop_last());
        assert(b.push(s.last()).subrange(0, a.len() as int) =~= b.subrange(0, a.len() as int));
    } else {
        assert(s.subrange(0, i) =~= s);
        assert(strip_underscores(s).subrange(0, strip_underscores(s).len() as int) =~= strip_underscores(s));
    }
}

/// The number the digits of `src` spell in `base`, underscores skipped;
/// `None` when it does not fit in a `u64`.
pub fn parse_u64(src: &str, base: u64) -> (value: Option<u64>)
    requires
        all_digits(src@, (base as u8) as nat),
    ensures
        match value {
            Some(v) => v == digits_value(strip_underscores(src@), base as nat),
            None => digits_value(strip_underscores(src@), base as nat) > u64::MAX,
        },
{
    let n = src.unicode_len();
    let ghost s = src@;
    let mut result: u64 = 0;
    let mut i: usize = 0;
    proof {
        assert(s.subrange(0, 0) =~= Seq::<char>::empty());
    }
    while i < n
        invariant
            i <= n,
            n == s.len(),
            s == src@,
            all_digits(s, (base as u8) as nat),
            result == digits_value(strip_underscores(s.subrange(0, i as int)), base as nat),
        decreases n - i,
    {
        let ch = src.get_char(i);
        proof {
            lemma_strip_prefix(s, i as int);
        }
        if ch != '_' {
            let digit = match parse_digit(ch, base as u8) {
                Some(d) => d as u64,
                None => {
                    proof {
                        assert(is_digit_of(s[i as int], (base as u8) as nat));
                    }
                    0
                },
            };
            proof {
                let prefix = strip_underscores(s.subrange(0, i + 1));
                assert(prefix.drop_last() == strip_underscores(s.subrange(0, i as int)));
                assert(prefix.last() == ch);
            }
            let next = match result.checked_mul(base) {
                Some(r) => r.checked_add(digit),
                None => None,
            };
            match next {
                Some(r) => {
                    result = r;
                },
                None => {
                    proof {
                        let whole = strip_underscores(s);
                        let prefix = strip_underscores(s.subrange(0, i + 1));
                        assert(digits_value(prefix, base as nat) > u64::MAX) by (nonlinear_arith)
                            requires
                                digits_value(prefix, base as nat) == result * base + digit,
                                result * base + digit > u64::MAX,
                        ;
                        lemma_strip_is_prefix(s, i + 1);
                        if base == 0 {
                            assert(false);
                        }
                        lemma_value_grows(whole, base as nat, prefix.len() as int);
                    }
                    return None;
                },
            }
        }
        i = i + 1;
    }
    proof {
        assert(s.subrange(0, n as int) =~= s);
    }
    Some(result)
}

/// Whether `c` is alphabetic or numeric, as `char::is_alphanumeric` has it.
pub uninterp spec fn alphanumeric(c: char) -> bool;

/// `char::is_alphanumeric`, which tells Unicode letters and numbers. Among
/// ASCII characters those are exactly the letters and the digits; beyond
/// ASCII the answer is what `alphanumeric` names, and nothing more is said.
#[verifier::external_body]
pub(crate) fn is_alphanumeric(c: char) -> (b: bool)
    ensures
        b == alphanumeric(c),
        (c as u32) < 128 ==> (b <==> (('0' <= c && c <= '9') || ('a' <= c && c <= 'z') || (
        'A' <= c && c <= 'Z'))),
{
    c.is_alphanumeric()
}

/// Why a text does not start with an integer literal.
#[derive(Debug, PartialEq, Eq, Clone, Copy, Structural)]
pub enum IntegerError {
    /// No digit where the literal should start (or none after `0x`, `0o`,
    /// `0b`).
    NotAnInteger,
    /// The value does not fit in a `u64`.
    Overflow,
    /// A letter or digit follows the literal.
    FollowedByAlphanumeric,
}

/// The base a prefix letter after `0` selects.
pub open spec fn prefix_base(c: char) -> Option<nat> {
    if c == 'x' || c == 'X' {
        Some(16)
    } else if c == 'o' || c == 'O' {
        Some(8)
    } else if c == 'b' || c == 'B' {
        Some(2)
    } else {
        None
    }
}

/// The end of the run of digits of `base` and underscores that starts at
/// `from`.
pub open spec fn run_end(s: Seq<char>, from: int, base: nat) -> int
    decreases s.len() - from,
{
    if 0 <= from < s.len() && (s[from] == '_' || is_digit_of(s[from], base)) {
        run_end(s, from + 1, base)
    } else {
        from
    }
}

/// The literal spelled by `s[start..end]` in `base`, checked against
/// overflow and against a letter or digit right after it.
pub open spec fn finish_integer(s: Seq<char>, start: int, end: int, base: nat) -> Result<
    (u64, nat),
    IntegerError,
> {
    let v = digits_value(strip_underscores(s.subrange(start, end)), base);
    if v > u64::MAX {
        Err(IntegerError::Overflow)
    } else if end < s.len() && alphanumeric(s[end]) {
        Err(IntegerError::FollowedByAlphanumeric)
    } else {
        Ok((v as u64, end as nat))
    }
}

/// The integer literal at the start of `s`, with the number of characters
/// it takes.
pub open spec fn integer_literal(s: Seq<char>) -> Result<(u64, nat), IntegerError> {
    if s.len() >= 2 && s[0] == '0' && prefix_base(s[1]) is Some {
        let base = prefix_base(s[1])->Some_0;
        let end = run_end(s, 2, base);
        if end == 2 {
            Err(IntegerError::NotAnInteger)
        } else {
            finish_integer(s, 2, end, base)
        }
    } else if s.len() >= 1 && is_digit_of(s[0], 10) {
        finish_integer(s, 0, run_end(s, 1, 10), 10)
    } else {
        Err(IntegerError::NotAnInteger)
    }
}

/// Where the run of digits of `base` and underscores from `from` ends.
pub(crate) fn scan_run(src: &str, from: usize, base: u8) -> (end: usize)
    requires
        from <= src@.len(),
    ensures
        end == run_end(src@, from as int, base as nat),
        from <= end <= src@.len(),
        all_digits(src@.subrange(from as int, end as int), base as nat),
{
    let n = src.unicode_len();
    let mut i = from;
    while i < n
        invariant
            from <= i <= n,
            n == src@.len(),
            run_end(src@, from as int, base as nat) == run_end(src@, i as int, base as nat),
            all_digits(src@.subrange(from as int, i as int), base as nat),
        decreases n - i,
    {
        let c = src.get_char(i);
        let keep = c == '_' || parse_digit(c, base).is_some();
        if !keep {
            return i;
        }
        proof {
            let t = src@.subrange(from as int, i + 1);
            assert forall|j: int| 0 <= j < t.len() && t[j] != '_' implies is_digit_of(
                #[trigger] t[j],
                base as nat,
            ) by {
                if j < i - from {
                    assert(t[j] == src@.subrange(from as int, i as int)[j]);
                }
            }
        }
        i = i + 1;
    }
    i
}

/// Checks the literal `src[start..end]` in `base` and what follows it.
fn finish(src: &str, start: usize, end: usize, base: u8) -> (result: Result<(u64, usize), IntegerError>)
    requires
        start <= end <= src@.len(),
        base == 2 || base == 8 || base == 10 || base == 16,
        all_digits(src@.subrange(start as int, end as int), base as nat),
    ensures
        match finish_integer(src@, start as int, end as int, base as nat) {
            Ok((v, k)) => result == Ok::<(u64, usize), IntegerError>((v, k as usize)),
            Err(e) => result == Err::<(u64, usize), IntegerError>(e),
        },
{
    let digits = src.substring_char(start, end);
    proof {
        assert((base as u64) as u8 == base);
    }
    match parse_u64(digits, base as u64) {
        None => Err(IntegerError::Overflow),
        Some(v) => {
            if end < src.unicode_len() && is_alphanumeric(src.get_char(end)) {
                Err(IntegerError::FollowedByAlphanumeric)
            } else {
                Ok((v, end))
            }
        },
    }
}

/// The integer literal at the start of `src` (decimal, or `0x`, `0o`, `0b`
/// followed by digits of base 16, 8, 2; `_` allowed after the first digit),
/// with the text after it.
pub fn integer_u64(src: &str) -> (result: Result<(u64, &str), IntegerError>)
    ensures
        match integer_literal(src@) {
            Ok((v, k)) => result matches Ok((w, rest)) && w == v && rest@ == src@.skip(k as int),
            Err(e) => result == Err::<(u64, &str), IntegerError>(e),
        },
{
    let n = src.unicode_len();
    let mut prefixed: u8 = 0;
    if n >= 2 && src.get_char(0) == '0' {
        let c = src.get_char(1);
        if c == 'x' || c == 'X' {
            prefixed = 16;
        } else if c == 'o' || c == 'O' {
            prefixed = 8;
        } else if c == 'b' || c == 'B' {
            prefixed = 2;
        }
    }
    let (start, end, base): (usize, usize, u8) = if prefixed != 0 {
        let end = scan_run(src, 2, prefixed);
        if end == 2 {
            return Err(IntegerError::NotAnInteger);
        }
        (2, end, prefixed)
    } else if n >= 1 && parse_digit(src.get_char(0), 10).is_some() {
        let end = scan_run(src, 1, 10);
        proof {
            let t = src@.subrange(0, end as int);
            assert forall|j: int| 0 <= j < t.len() && t[j] != '_' implies is_digit_of(
                #[trigger] t[j],
                10,
            ) by {
                if j > 0 {
                    assert(t[j] == src@.subrange(1, end as int)[j - 1]);
                }
            }
        }
        (0, end, 10)
    } else {
        return Err(IntegerError::NotAnInteger);
    };
    match finish(src, start, end, base) {
        Err(e) => Err(e),
        Ok((v, k)) => {
            let rest = src.substring_char(k, n);
            proof {
                assert(rest@ =~= src@.skip(k as int));
            }
            Ok((v, rest))
        },
    }
}

// ---------------------------------------------------------------------
// Reading back a number written in decimal

proof fn lemma_digit_char(d: nat)
    requires
        d < 10,
    ensures
        digit_value(digit_char(d)) == Some(d),
        digit_char(d) != '_',
{
}

/// The decimal digits of `n` are digits, and spell `n`.
proof fn lemma_decimal_digits(n: nat)
    ensures
        forall|i: int|
            0 <= i < decimal(n).len() ==> is_digit_of(#[trigger] decimal(n)[i], 10) && decimal(
                n,
            )[i] != '_',
        strip_underscores(decimal(n)) == decimal(n),
        digits_value(decimal(n), 10) == n,
    decreases n,
{
    let s = decimal(n);
    if n < 10 {
        lemma_digit_char(n);
        assert(s.drop_last() =~= Seq::<char>::empty());
        assert(strip_underscores(s) == strip_underscores(s.drop_last()).push(s.last()));
        assert(strip_underscores(s) =~= s);
        assert(digits_value(s, 10) == digits_value(s.drop_last(), 10) * 10 + n);
    } else {
        let prefix = decimal(n / 10);
        let d = (n % 10) as nat;
        lemma_decimal_digits(n / 10);
        lemma_digit_char(d);
        assert(s == prefix.push(digit_char(d)));
        assert(s.drop_last() =~= prefix);
        assert(s.last() == digit_char(d));
        assert(strip_underscores(s) == strip_underscores(prefix).push(digit_char(d)));
        assert(strip_underscores(s) =~= s);
        assert(digits_value(s, 10) == digits_value(prefix, 10) * 10 + d);
        assert((n / 10) * 10 + n % 10 == n) by (nonlinear_arith);
    }
}

proof fn lemma_run_end_digits(s: Seq<char>, from: int)
    requires
        0 <= from <= s.len(),
        forall|i: int| from <= i < s.len() ==> is_digit_of(#[trigger] s[i], 10),
    ensures
        run_end(s, from, 10) == s.len(),
    decreases s.len() - from,
{
    if from < s.len() {
        lemma_run_end_digits(s, from + 1);
    }
}

/// A number written in decimal reads back as itself: the whole text is
/// the literal.
pub proof fn law_decimal_read_back(n: u64)
    ensures
        integer_literal(decimal(n as nat)) == Ok::<(u64, nat), IntegerError>(
            (n, decimal(n as nat).len()),
        ),
{
    let s = decimal(n as nat);
    lemma_decimal_digits(n as nat);
    lemma_run_end_digits(s, 1);
    assert(s.subrange(0, s.len() as int) =~= s);
    if s.len() >= 2 {
        assert(is_digit_of(s[1], 10));
        assert(prefix_base(s[1]) is None);
    }
}

} // verus!
